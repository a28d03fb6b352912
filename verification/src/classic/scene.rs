//! One frame of the running aquarium: which creatures it starts with, how they all move
//! on each tick, and the picture that is drawn of them.
use vstd::prelude::*;

use rand::rngs::ThreadRng;

use crate::canvas::{blank_lines, blank_picture, cells, painted, put, same_shape, Cell};
use crate::chance::{random_range_u16, random_range_u8};
use crate::classic::bubble::{updated, Bubble, BUBBLE_FRAMES};
use crate::classic::fish::{
    can_swim, fish_body, fish_kinds, fresh_fish, lemma_body_lines_bounded, stays, swum, widest_fish_line,
    widest_fish_line_len, Fish, SLOWEST, SPEED_BOUND,
};
use crate::classic::seaweed::{draw_seaweed, seaweed_symbol, swayed, weed_painted, Seaweed};
use crate::color::Color;
use crate::layers::{gather, layered, stable_layer_order};
use crate::renderer::{
    body_fits, body_painted, house_painted, paint_body, paint_house, paint_strokes, sat_sub, shown_strokes,
    strokes_painted, widest,
};
use crate::text::text_lines;

verus! {

broadcast use crate::canvas::lemma_cells_len;

/// How many depth layers creatures are spread over: layers are drawn from `0..DEPTH_LAYERS`.
pub const DEPTH_LAYERS: u8 = 3;

/// How many fish swim in the aquarium.
pub const FISH_COUNT: usize = 10;

/// How many bubbles rise in the aquarium.
pub const BUBBLE_COUNT: usize = 40;

/// How many strands of seaweed grow in the aquarium.
pub const SEAWEED_COUNT: usize = 30;

/// The fish of `fs` that are still in the water after each moves once, moved, in order.
pub open spec fn survivors(fs: Seq<Fish>, max_x: u16) -> Seq<Fish>
    decreases fs.len(),
{
    if fs.len() == 0 {
        seq![]
    } else {
        let p = survivors(fs.drop_last(), max_x);
        if stays(fs.last(), max_x) {
            p.push(swum(fs.last()))
        } else {
            p
        }
    }
}

/// What holds of every bubble that `spawn_bubbles` places.
pub open spec fn placed_bubble(b: Bubble, cols: u16, rows: u16) -> bool {
    &&& 1 <= b.x < cols - 1
    &&& 1 <= b.y < rows - 1
    &&& b.z_index < DEPTH_LAYERS
    &&& b.frame == 0
}

/// What holds of every strand that `spawn_seaweeds` plants.
pub open spec fn planted_seaweed(s: Seaweed, cols: u16, rows: u16) -> bool {
    &&& 1 <= s.x < cols - 1
    &&& s.y == rows - 5
    &&& s.z_index < DEPTH_LAYERS
    &&& s.frame == 0
    &&& crate::classic::seaweed::SHORTEST <= s.height <= crate::classic::seaweed::TALLEST
}

/// How long a frame lasts before everything moves again, in milliseconds.
pub const FRAME_MILLIS: u128 = 100;

/// Whether the aquarium moves on: once `elapsed_millis` whole milliseconds have passed
/// since the last move, and a whole frame has.
pub fn tick_due(elapsed_millis: u128) -> (due: bool)
    ensures
        due == (elapsed_millis >= FRAME_MILLIS),
{
    elapsed_millis >= FRAME_MILLIS
}

/// Whether a key press ends the program: `q` does, and no other key.
pub fn quits(key: char) -> (stop: bool)
    ensures
        stop == (key == 'q'),
{
    key == 'q'
}

/// Whether a `cols` by `rows` screen leaves room for the aquarium: a column inside the
/// border for bubbles to come back in, rows enough under the top for a new fish's row, and
/// columns few enough that the widest line of any fish drawing, starting up to `cols + 7`
/// cells in, ends within the `0x8000` columns that a drawing's cells are counted in.
pub open spec fn screen_fits(cols: u16, rows: u16) -> bool {
    &&& 3 <= cols
    &&& 9 <= rows
    &&& cols + 7 + widest_fish_line() <= 0x8000
}

/// Whether `screen_fits(cols, rows)`.
pub fn screen_fits_check(cols: u16, rows: u16) -> (ok: bool)
    ensures
        ok == screen_fits(cols, rows),
{
    let w = widest_fish_line_len();
    3 <= cols && 9 <= rows && w <= 0x8000 && cols as usize + 7 + w <= 0x8000
}

/// What holds of every fish in a running aquarium on a screen `cols` wide: its speed is one
/// a new fish may have, its drawing is one of those for its direction, and it starts no
/// further than `cols + 7` cells in.
pub open spec fn swimmer_ok(f: Fish, cols: u16) -> bool {
    &&& SLOWEST <= f.speed < SPEED_BOUND
    &&& exists|kind: int|
        0 <= kind < fish_kinds(f.direction).len() && f.body_lines() == fish_body(f.direction, kind)
    &&& f.x <= cols + 7
}

/// The invariant of a running aquarium on a `cols` by `rows` screen: the screen fits, every
/// fish is `swimmer_ok`, every bubble shows one of its three looks and every strand one of
/// its two.
pub open spec fn scene_ready(fs: Seq<Fish>, bs: Seq<Bubble>, ss: Seq<Seaweed>, cols: u16, rows: u16) -> bool {
    &&& screen_fits(cols, rows)
    &&& forall|i: int| 0 <= i < fs.len() ==> swimmer_ok(#[trigger] fs[i], cols)
    &&& forall|i: int| 0 <= i < bs.len() ==> (#[trigger] bs[i]).frame < 3
    &&& forall|i: int| 0 <= i < ss.len() ==> (#[trigger] ss[i]).frame < 2
}

/// A new fish for a screen that fits is `swimmer_ok`.
pub proof fn lemma_fresh_fish_ready(f: Fish, cols: u16, rows: u16)
    requires
        screen_fits(cols, rows),
        fresh_fish(f, (cols - 2) as u16, (rows - 2) as u16),
    ensures
        swimmer_ok(f, cols),
{
}

/// The creatures that `spawn_fishes`, `spawn_bubbles` and `spawn_seaweeds` make for a
/// screen that fits form a ready aquarium.
pub proof fn lemma_spawned_scene_ready(fs: Seq<Fish>, bs: Seq<Bubble>, ss: Seq<Seaweed>, cols: u16, rows: u16)
    requires
        screen_fits(cols, rows),
        forall|i: int| 0 <= i < fs.len() ==> fresh_fish(#[trigger] fs[i], (cols - 2) as u16, (rows - 2) as u16),
        forall|i: int| 0 <= i < bs.len() ==> placed_bubble(#[trigger] bs[i], cols, rows),
        forall|i: int| 0 <= i < ss.len() ==> planted_seaweed(#[trigger] ss[i], cols, rows),
    ensures
        scene_ready(fs, bs, ss, cols, rows),
{
    assert forall|i: int| 0 <= i < fs.len() implies swimmer_ok(#[trigger] fs[i], cols) by {
        lemma_fresh_fish_ready(fs[i], cols, rows);
    }
    assert forall|i: int| 0 <= i < bs.len() implies (#[trigger] bs[i]).frame < 3 by {
        assert(placed_bubble(bs[i], cols, rows));
    }
    assert forall|i: int| 0 <= i < ss.len() implies (#[trigger] ss[i]).frame < 2 by {
        assert(planted_seaweed(ss[i], cols, rows));
    }
}

/// The fish that survive a move of `swimmer_ok` fish are `swimmer_ok`.
proof fn lemma_survivors_ready(fs: Seq<Fish>, cols: u16)
    requires
        3 <= cols,
        forall|i: int| 0 <= i < fs.len() ==> swimmer_ok(#[trigger] fs[i], cols),
    ensures
        forall|i: int|
            0 <= i < survivors(fs, (cols - 2) as u16).len() ==> swimmer_ok(
                #[trigger] survivors(fs, (cols - 2) as u16)[i],
                cols,
            ),
    decreases fs.len(),
{
    if fs.len() > 0 {
        let max_x = (cols - 2) as u16;
        let p = fs.drop_last();
        assert forall|i: int| 0 <= i < p.len() implies swimmer_ok(#[trigger] p[i], cols) by {
            assert(p[i] == fs[i]);
        }
        lemma_survivors_ready(p, cols);
        let f = fs.last();
        assert(swimmer_ok(fs[fs.len() - 1], cols));
        let sp = survivors(p, max_x);
        let s = survivors(fs, max_x);
        if stays(f, max_x) {
            let k = choose|kind: int|
                0 <= kind < fish_kinds(f.direction).len() && f.body_lines() == fish_body(f.direction, kind);
            assert(swum(f).body_lines() == fish_body(swum(f).direction, k));
            assert(swimmer_ok(swum(f), cols));
            assert(s == sp.push(swum(f)));
            assert forall|i: int| 0 <= i < s.len() implies swimmer_ok(#[trigger] s[i], cols) by {
                if i < sp.len() {
                    assert(s[i] == sp[i]);
                }
            }
        } else {
            assert(s == sp);
        }
    }
}

/// In a ready aquarium every condition that `tick` asks of its input holds.
pub proof fn lemma_ready_meets_tick(
    fs: Seq<Fish>,
    bs: Seq<Bubble>,
    ss: Seq<Seaweed>,
    num_fish: usize,
    cols: u16,
    rows: u16,
)
    requires
        scene_ready(fs, bs, ss, cols, rows),
    ensures
        fs.len() > 0 ==> cols >= 2,
        forall|i: int| 0 <= i < fs.len() ==> can_swim(#[trigger] fs[i], (cols - 2) as u16),
        survivors(fs, (cols - 2) as u16).len() < num_fish ==> cols >= 2 && rows > 8,
        bs.len() > 0 ==> rows >= 2 && cols >= 1,
        forall|i: int|
            0 <= i < bs.len() ==> (#[trigger] bs[i]).frame < usize::MAX && (bs[i].y == 0 ==> cols > 2),
        forall|i: int| 0 <= i < ss.len() ==> (#[trigger] ss[i]).frame < usize::MAX,
{
    assert forall|i: int| 0 <= i < fs.len() implies can_swim(#[trigger] fs[i], (cols - 2) as u16) by {
        assert(swimmer_ok(fs[i], cols));
    }
}

/// In a ready aquarium every condition that `compose` asks of its input holds, whatever the
/// size of the picture inside the border, as long as it has a cell.
pub proof fn lemma_ready_meets_compose(
    fs: Seq<Fish>,
    bs: Seq<Bubble>,
    ss: Seq<Seaweed>,
    cols: u16,
    rows: u16,
    inner_width: u16,
    inner_height: u16,
)
    requires
        scene_ready(fs, bs, ss, cols, rows),
        inner_width > 0,
        inner_height > 0,
    ensures
        forall|i: int|
            0 <= i < fs.len() ==> body_fits(
                (#[trigger] fs[i]).body_lines(),
                fs[i].x,
                fs[i].y,
                inner_height as int,
            ),
        forall|i: int|
            0 <= i < bs.len() && (#[trigger] bs[i]).y < inner_height ==> inner_width > 0 && bs[i].frame < 3,
        rows >= 4,
        ss.len() > 0 ==> inner_width > 0 && inner_height > 0,
        forall|i: int| 0 <= i < ss.len() ==> (#[trigger] ss[i]).frame < 2,
{
    assert forall|i: int| 0 <= i < fs.len() implies body_fits(
        (#[trigger] fs[i]).body_lines(),
        fs[i].x,
        fs[i].y,
        inner_height as int,
    ) by {
        let f = fs[i];
        assert(swimmer_ok(f, cols));
        let k = choose|kind: int|
            0 <= kind < fish_kinds(f.direction).len() && f.body_lines() == fish_body(f.direction, kind);
        lemma_body_lines_bounded(f.direction, k);
        let body = f.body_lines();
        assert forall|dy: int| 0 <= dy < body.len() && f.y + dy < inner_height implies #[trigger] body[dy].len()
            <= 0x8000 && crate::renderer::start_col(f.x) + body[dy].len() <= 0x8000 by {
            assert(body[dy] == fish_body(f.direction, k)[dy]);
        }
    }
}

/// `count` new fish for a picture of `cols` by `rows` cells.
pub fn spawn_fishes(count: usize, cols: u16, rows: u16, rng: &mut ThreadRng) -> (fs: Vec<Fish>)
    requires
        count > 0 ==> cols >= 2 && rows > 8,
    ensures
        fs@.len() == count,
        forall|i: int| 0 <= i < count ==> fresh_fish(#[trigger] fs@[i], (cols - 2) as u16, (rows - 2) as u16),
{
    let mut fs: Vec<Fish> = Vec::new();
    for i in 0..count
        invariant
            count > 0 ==> cols >= 2 && rows > 8,
            fs@.len() == i,
            forall|j: int| 0 <= j < i ==> fresh_fish(#[trigger] fs@[j], (cols - 2) as u16, (rows - 2) as u16),
    {
        fs.push(Fish::new(cols - 2, rows - 2, rng));
    }
    fs
}

/// `count` new bubbles, each somewhere inside the border of a `cols` by `rows` picture, in
/// one of three depth layers.
pub fn spawn_bubbles(count: usize, cols: u16, rows: u16, rng: &mut ThreadRng) -> (bs: Vec<Bubble>)
    requires
        count > 0 ==> cols > 2 && rows > 2,
    ensures
        bs@.len() == count,
        forall|i: int| 0 <= i < count ==> placed_bubble(#[trigger] bs@[i], cols, rows),
{
    let mut bs: Vec<Bubble> = Vec::new();
    for i in 0..count
        invariant
            count > 0 ==> cols > 2 && rows > 2,
            bs@.len() == i,
            forall|j: int| 0 <= j < i ==> placed_bubble(#[trigger] bs@[j], cols, rows),
    {
        let x = random_range_u16(rng, 1, cols - 1);
        let y = random_range_u16(rng, 1, rows - 1);
        let z = random_range_u8(rng, 0, DEPTH_LAYERS);
        bs.push(Bubble::new(x, y, z));
    }
    bs
}

/// `count` new strands of seaweed rooted on row `rows - 5`, inside the border of a `cols`
/// wide picture, in one of three depth layers.
pub fn spawn_seaweeds(count: usize, cols: u16, rows: u16, rng: &mut ThreadRng) -> (ss: Vec<Seaweed>)
    requires
        count > 0 ==> cols > 2 && rows >= 5,
    ensures
        ss@.len() == count,
        forall|i: int| 0 <= i < count ==> planted_seaweed(#[trigger] ss@[i], cols, rows),
{
    let mut ss: Vec<Seaweed> = Vec::new();
    for i in 0..count
        invariant
            count > 0 ==> cols > 2 && rows >= 5,
            ss@.len() == i,
            forall|j: int| 0 <= j < i ==> planted_seaweed(#[trigger] ss@[j], cols, rows),
    {
        let x = random_range_u16(rng, 1, cols - 1);
        let y = rows - 5;
        let z = random_range_u8(rng, 0, DEPTH_LAYERS);
        ss.push(Seaweed::new(x, y, z, rng));
    }
    ss
}

/// One tick of the aquarium: every fish moves and those that left the water are dropped,
/// new fish come in until there are `num_fish` again, every bubble rises and every strand
/// sways.
pub fn tick(
    fishes: Vec<Fish>,
    bubbles: &mut Vec<Bubble>,
    seaweeds: &mut Vec<Seaweed>,
    num_fish: usize,
    cols: u16,
    rows: u16,
    rng: &mut ThreadRng,
) -> (next: Vec<Fish>)
    requires
        fishes@.len() > 0 ==> cols >= 2,
        forall|i: int| 0 <= i < fishes@.len() ==> can_swim(#[trigger] fishes@[i], (cols - 2) as u16),
        survivors(fishes@, (cols - 2) as u16).len() < num_fish ==> cols >= 2 && rows > 8,
        old(bubbles)@.len() > 0 ==> rows >= 2 && cols >= 1,
        forall|i: int|
            0 <= i < old(bubbles)@.len() ==> (#[trigger] old(bubbles)@[i]).frame < usize::MAX && (
            old(bubbles)@[i].y == 0 ==> cols > 2),
        forall|i: int| 0 <= i < old(seaweeds)@.len() ==> (#[trigger] old(seaweeds)@[i]).frame < usize::MAX,
    ensures
        ({
            let s = survivors(fishes@, (cols - 2) as u16);
            &&& next@.len() == if s.len() < num_fish { num_fish as int } else { s.len() as int }
            &&& next@.take(s.len() as int) == s
            &&& forall|i: int|
                s.len() <= i < next@.len() ==> fresh_fish(#[trigger] next@[i], (cols - 2) as u16, (rows - 2) as u16)
        }),
        final(bubbles)@.len() == old(bubbles)@.len(),
        forall|i: int|
            0 <= i < old(bubbles)@.len() ==> updated(
                #[trigger] old(bubbles)@[i],
                final(bubbles)@[i],
                (rows - 2) as u16,
                (cols - 1) as u16,
            ),
        final(seaweeds)@ == old(seaweeds)@.map_values(|s: Seaweed| swayed(s)),
        scene_ready(fishes@, old(bubbles)@, old(seaweeds)@, cols, rows) ==> scene_ready(
            next@,
            final(bubbles)@,
            final(seaweeds)@,
            cols,
            rows,
        ),
{
    let ghost fs0 = fishes@;
    let mut next: Vec<Fish> = Vec::new();
    for fish in it: fishes
        invariant
            it.seq() == fs0,
            fs0.len() > 0 ==> cols >= 2,
            forall|i: int| 0 <= i < fs0.len() ==> can_swim(#[trigger] fs0[i], (cols - 2) as u16),
            next@ == survivors(fs0.take(it.index() as int), (cols - 2) as u16),
    {
        let ghost k = it.index();
        let mut fish = fish;
        assert(fish == fs0[k as int]);
        let alive = fish.update(cols - 2);
        assert(fs0.take(k + 1).drop_last() =~= fs0.take(k as int));
        if alive {
            next.push(fish);
        }
    }
    assert(fs0.take(fs0.len() as int) =~= fs0);
    let ghost s = next@;
    while next.len() < num_fish
        invariant
            s == survivors(fs0, (cols - 2) as u16),
            s.len() < num_fish ==> cols >= 2 && rows > 8,
            next@.len() >= s.len(),
            next@.len() <= if s.len() < num_fish { num_fish as int } else { s.len() as int },
            next@.take(s.len() as int) == s,
            forall|i: int|
                s.len() <= i < next@.len() ==> fresh_fish(#[trigger] next@[i], (cols - 2) as u16, (rows - 2) as u16),
        decreases num_fish - next@.len(),
    {
        let f = Fish::new(cols - 2, rows - 2, rng);
        let ghost before = next@;
        next.push(f);
        assert(next@.take(s.len() as int) =~= before.take(s.len() as int));
    }
    let ghost b0 = bubbles@;
    let nb = bubbles.len();
    let mut i: usize = 0;
    while i < nb
        invariant
            i <= nb,
            nb == b0.len(),
            b0 == old(bubbles)@,
            bubbles@.len() == b0.len(),
            b0.len() > 0 ==> rows >= 2 && cols >= 1,
            forall|j: int|
                0 <= j < b0.len() ==> (#[trigger] b0[j]).frame < usize::MAX && (b0[j].y == 0 ==> cols > 2),
            forall|j: int| i <= j < b0.len() ==> bubbles@[j] == b0[j],
            forall|j: int|
                0 <= j < i ==> updated(#[trigger] b0[j], bubbles@[j], (rows - 2) as u16, (cols - 1) as u16),
        decreases nb - i,
    {
        let mut b = bubbles[i];
        assert(b == b0[i as int]);
        assert(b0[i as int].frame < usize::MAX && (b0[i as int].y == 0 ==> cols > 2));
        b.update(rows - 2, cols - 1, rng);
        bubbles.set(i, b);
        i += 1;
    }
    let ghost s0 = seaweeds@;
    let ns = seaweeds.len();
    let mut i: usize = 0;
    while i < ns
        invariant
            i <= ns,
            ns == s0.len(),
            s0 == old(seaweeds)@,
            seaweeds@.len() == s0.len(),
            forall|j: int| 0 <= j < s0.len() ==> (#[trigger] s0[j]).frame < usize::MAX,
            forall|j: int| i <= j < s0.len() ==> seaweeds@[j] == s0[j],
            forall|j: int| 0 <= j < i ==> seaweeds@[j] == swayed(#[trigger] s0[j]),
        decreases ns - i,
    {
        let mut w = seaweeds[i];
        assert(w == s0[i as int]);
        assert(s0[i as int].frame < usize::MAX);
        w.update();
        seaweeds.set(i, w);
        i += 1;
    }
    assert(seaweeds@ =~= s0.map_values(|s: Seaweed| swayed(s)));
    proof {
        if scene_ready(fs0, b0, s0, cols, rows) {
            lemma_survivors_ready(fs0, cols);
            assert forall|i: int| 0 <= i < next@.len() implies swimmer_ok(#[trigger] next@[i], cols) by {
                if i < s.len() {
                    assert(next@[i] == next@.take(s.len() as int)[i]);
                } else {
                    lemma_fresh_fish_ready(next@[i], cols, rows);
                }
            }
            assert forall|i: int| 0 <= i < bubbles@.len() implies (#[trigger] bubbles@[i]).frame < 3 by {
                assert(updated(b0[i], bubbles@[i], (rows - 2) as u16, (cols - 1) as u16));
            }
            assert forall|i: int| 0 <= i < seaweeds@.len() implies (#[trigger] seaweeds@[i]).frame < 2 by {
                assert(seaweeds@[i] == swayed(s0[i]));
            }
        }
    }
    next
}

/// The house that stands on the sea floor.
pub const KAME_HOUSE: &'static str = r#"
  ____KAME____
 /   HOUSE    \
/______________\
| []   __   [] |
|____|_____|___|
"#;

/// The depth layers of a list of bubbles.
pub open spec fn bubble_depths(bs: Seq<Bubble>) -> Seq<u8> {
    bs.map_values(|b: Bubble| b.z_index)
}

/// The depth layers of a list of strands.
pub open spec fn seaweed_depths(ss: Seq<Seaweed>) -> Seq<u8> {
    ss.map_values(|s: Seaweed| s.z_index)
}

/// Puts the bubbles in drawing order: by depth layer, deepest first, keeping the order of
/// bubbles in the same layer.
pub fn sort_bubbles(bubbles: &mut Vec<Bubble>)
    ensures
        final(bubbles)@ == layered(old(bubbles)@, bubble_depths(old(bubbles)@)),
{
    let mut zs: Vec<u8> = Vec::new();
    for i in 0..bubbles.len()
        invariant
            zs@ == bubble_depths(bubbles@).take(i as int),
    {
        zs.push(bubbles[i].z_index);
        assert(zs@ =~= bubble_depths(bubbles@).take(i + 1));
    }
    assert(zs@ =~= bubble_depths(bubbles@));
    let order = stable_layer_order(&zs);
    let sorted = gather(bubbles, &order);
    *bubbles = sorted;
}

/// Puts the strands in drawing order: by depth layer, deepest first, keeping the order of
/// strands in the same layer.
pub fn sort_seaweeds(seaweeds: &mut Vec<Seaweed>)
    ensures
        final(seaweeds)@ == layered(old(seaweeds)@, seaweed_depths(old(seaweeds)@)),
{
    let mut zs: Vec<u8> = Vec::new();
    for i in 0..seaweeds.len()
        invariant
            zs@ == seaweed_depths(seaweeds@).take(i as int),
    {
        zs.push(seaweeds[i].z_index);
        assert(zs@ =~= seaweed_depths(seaweeds@).take(i + 1));
    }
    assert(zs@ =~= seaweed_depths(seaweeds@));
    let order = stable_layer_order(&zs);
    let sorted = gather(seaweeds, &order);
    *seaweeds = sorted;
}

/// `grid` with the fish of `fs` painted in turn, each over those before it.
pub open spec fn fishes_painted(grid: Seq<Seq<Cell>>, fs: Seq<Fish>, width: u16) -> Seq<Seq<Cell>>
    decreases fs.len(),
{
    if fs.len() == 0 {
        grid
    } else {
        let f = fs.last();
        body_painted(fishes_painted(grid, fs.drop_last(), width), f.body_lines(), f.x, f.y, f.color, width)
    }
}

/// `grid` with the bubble's look painted cyan on its cell, its column moved onto the last of
/// `width` columns.
pub open spec fn dot_painted(grid: Seq<Seq<Cell>>, b: Bubble, width: u16) -> Seq<Seq<Cell>> {
    let y = b.y as int;
    let x = if b.x < width - 1 {
        b.x as int
    } else {
        width - 1
    };
    if y < grid.len() && 0 <= x < grid[y].len() {
        grid.update(y, grid[y].update(x, painted(BUBBLE_FRAMES@[b.frame as int]@[0], Color::Cyan)))
    } else {
        grid
    }
}

/// `grid` with the bubbles of `bs` painted in turn.
pub open spec fn bubbles_painted(grid: Seq<Seq<Cell>>, bs: Seq<Bubble>, width: u16) -> Seq<Seq<Cell>>
    decreases bs.len(),
{
    if bs.len() == 0 {
        grid
    } else {
        dot_painted(bubbles_painted(grid, bs.drop_last(), width), bs.last(), width)
    }
}

/// `grid` with the strand painted green upwards from its cell, moved onto the last of
/// `width` columns and `height` rows.
pub open spec fn strand_painted(grid: Seq<Seq<Cell>>, s: Seaweed, width: u16, height: u16) -> Seq<Seq<Cell>> {
    let strokes = shown_strokes(seaweed_symbol(s.frame as int), s.height as int);
    let x = if s.x < width - 1 {
        s.x as int
    } else {
        width - 1
    };
    let y = if s.y < height - 1 {
        s.y as int
    } else {
        height - 1
    };
    strokes_painted(grid, strokes, x, y, strokes.len())
}

/// `grid` with the strands of `ss` painted in turn.
pub open spec fn strands_painted(
    grid: Seq<Seq<Cell>>,
    ss: Seq<Seaweed>,
    width: u16,
    height: u16,
) -> Seq<Seq<Cell>>
    decreases ss.len(),
{
    if ss.len() == 0 {
        grid
    } else {
        strand_painted(strands_painted(grid, ss.drop_last(), width, height), ss.last(), width, height)
    }
}

/// The picture of one frame, `width` by `height` cells inside the border of a `cols` by
/// `rows` screen: on blank water the fish, then the bubbles, then the sea floor of weed,
/// then the strands of seaweed, then the house, each painted over what came before.
pub open spec fn scene_picture(
    fs: Seq<Fish>,
    bs: Seq<Bubble>,
    ss: Seq<Seaweed>,
    cols: u16,
    rows: u16,
    width: u16,
    height: u16,
) -> Seq<Seq<Cell>> {
    let water = blank_picture(width as nat, height as nat);
    let with_bubbles = bubbles_painted(fishes_painted(water, fs, width), bs, width);
    let with_strands = strands_painted(weed_painted(with_bubbles, cols, rows), ss, width, height);
    house_painted(with_strands, KAME_HOUSE@, cols, rows, false)
}

/// Paints the fish in turn, each over those before it.
pub fn paint_fishes(lines: &mut Vec<Vec<Cell>>, fishes: &Vec<Fish>, inner_width: u16)
    requires
        forall|i: int|
            0 <= i < fishes@.len() ==> body_fits(
                (#[trigger] fishes@[i]).body_lines(),
                fishes@[i].x,
                fishes@[i].y,
                old(lines)@.len() as int,
            ),
    ensures
        cells(final(lines)@) == fishes_painted(cells(old(lines)@), fishes@, inner_width),
        final(lines)@.len() == old(lines)@.len(),
{
    let ghost g0 = cells(lines@);
    let ghost h = lines@.len();
    assert(fishes@.take(0) =~= Seq::<Fish>::empty());
    for i in 0..fishes.len()
        invariant
            forall|i: int|
                0 <= i < fishes@.len() ==> body_fits(
                    (#[trigger] fishes@[i]).body_lines(),
                    fishes@[i].x,
                    fishes@[i].y,
                    h as int,
                ),
            lines@.len() == h,
            g0 == cells(old(lines)@),
            cells(lines@) == fishes_painted(g0, fishes@.take(i as int), inner_width),
    {
        let f = &fishes[i];
        assert(body_fits(fishes@[i as int].body_lines(), f.x, f.y, h as int));
        let ghost prev = cells(lines@);
        paint_body(lines, &f.body, f.x, f.y, f.color, inner_width);
        proof {
            crate::renderer::lemma_body_painted_shape(prev, f.body_lines(), f.x, f.y, f.color, inner_width);
            assert(fishes@.take(i + 1).drop_last() =~= fishes@.take(i as int));
        }
    }
    assert(fishes@.take(fishes@.len() as int) =~= fishes@);
}

/// Paints the bubbles in turn, each in cyan.
pub fn paint_bubbles(lines: &mut Vec<Vec<Cell>>, bubbles: &Vec<Bubble>, inner_width: u16)
    requires
        forall|i: int|
            0 <= i < bubbles@.len() && (#[trigger] bubbles@[i]).y < old(lines)@.len() ==> inner_width > 0
                && bubbles@[i].frame < 3,
    ensures
        cells(final(lines)@) == bubbles_painted(cells(old(lines)@), bubbles@, inner_width),
        final(lines)@.len() == old(lines)@.len(),
{
    let ghost g0 = cells(lines@);
    let ghost h = lines@.len();
    let ghost bs = bubbles@;
    proof {
        crate::classic::bubble::lemma_bubble_frames_single_chars();
    }
    let nb = bubbles.len();
    let mut i: usize = 0;
    assert(bs.take(0) =~= Seq::<Bubble>::empty());
    while i < nb
        invariant
            i <= nb,
            nb == bs.len(),
            bs == bubbles@,
            forall|j: int|
                0 <= j < bs.len() && (#[trigger] bs[j]).y < h ==> inner_width > 0 && bs[j].frame < 3,
            BUBBLE_FRAMES@.len() == 3,
            forall|k: int| 0 <= k < BUBBLE_FRAMES@.len() ==> #[trigger] BUBBLE_FRAMES@[k]@.len() == 1,
            lines@.len() == h,
            g0 == cells(old(lines)@),
            cells(lines@) == bubbles_painted(g0, bs.take(i as int), inner_width),
        decreases nb - i,
    {
        let b = bubbles[i];
        assert(b == bs[i as int]);
        let y = b.y as usize;
        if y < lines.len() {
            let x = (if b.x < inner_width - 1 {
                b.x
            } else {
                inner_width - 1
            }) as usize;
            if x < lines[y].len() {
                let symbol = b.current_symbol();
                put(lines, y, x, Cell::styled(symbol.get_char(0), Color::Cyan));
            }
        }
        assert(bs.take(i + 1).drop_last() =~= bs.take(i as int));
        i += 1;
    }
    assert(bs.take(nb as int) =~= bs);
}

/// Paints the strands of seaweed in turn, each green.
pub fn paint_strands(
    lines: &mut Vec<Vec<Cell>>,
    seaweeds: &Vec<Seaweed>,
    inner_width: u16,
    inner_height: u16,
)
    requires
        seaweeds@.len() > 0 ==> inner_width > 0 && inner_height > 0,
        forall|i: int| 0 <= i < seaweeds@.len() ==> (#[trigger] seaweeds@[i]).frame < 2,
    ensures
        cells(final(lines)@) == strands_painted(
            cells(old(lines)@),
            seaweeds@,
            inner_width,
            inner_height,
        ),
        final(lines)@.len() == old(lines)@.len(),
{
    let ghost g0 = cells(lines@);
    let ghost h = lines@.len();
    let ghost ss = seaweeds@;
    let ns = seaweeds.len();
    let mut i: usize = 0;
    assert(ss.take(0) =~= Seq::<Seaweed>::empty());
    while i < ns
        invariant
            i <= ns,
            ns == ss.len(),
            ss == seaweeds@,
            ss.len() > 0 ==> inner_width > 0 && inner_height > 0,
            forall|j: int| 0 <= j < ss.len() ==> (#[trigger] ss[j]).frame < 2,
            lines@.len() == h,
            g0 == cells(old(lines)@),
            cells(lines@) == strands_painted(g0, ss.take(i as int), inner_width, inner_height),
        decreases ns - i,
    {
        let w = seaweeds[i];
        assert(w == ss[i as int]);
        let x = (if w.x < inner_width - 1 {
            w.x
        } else {
            inner_width - 1
        }) as usize;
        let y = (if w.y < inner_height - 1 {
            w.y
        } else {
            inner_height - 1
        }) as usize;
        let symbol = w.current_symbol();
        let ghost prev = cells(lines@);
        paint_strokes(lines, &symbol, w.height, x, y);
        proof {
            let strokes = shown_strokes(seaweed_symbol(w.frame as int), w.height as int);
            crate::renderer::lemma_strokes_painted_shape(prev, strokes, x as int, y as int, strokes.len());
            assert(ss.take(i + 1).drop_last() =~= ss.take(i as int));
        }
        i += 1;
    }
    assert(ss.take(ns as int) =~= ss);
}

/// Draws one frame: the picture of `inner_width` by `inner_height` cells inside the border
/// of a `cols` by `rows` screen. Bubbles and strands are first put in drawing order.
pub fn compose(
    fishes: &Vec<Fish>,
    bubbles: &mut Vec<Bubble>,
    seaweeds: &mut Vec<Seaweed>,
    cols: u16,
    rows: u16,
    inner_width: u16,
    inner_height: u16,
) -> (lines: Vec<Vec<Cell>>)
    requires
        forall|i: int|
            0 <= i < fishes@.len() ==> body_fits(
                (#[trigger] fishes@[i]).body_lines(),
                fishes@[i].x,
                fishes@[i].y,
                inner_height as int,
            ),
        forall|i: int|
            0 <= i < old(bubbles)@.len() && (#[trigger] old(bubbles)@[i]).y < inner_height ==> inner_width > 0
                && old(bubbles)@[i].frame < 3,
        rows >= 4,
        old(seaweeds)@.len() > 0 ==> inner_width > 0 && inner_height > 0,
        forall|i: int| 0 <= i < old(seaweeds)@.len() ==> (#[trigger] old(seaweeds)@[i]).frame < 2,
    ensures
        final(bubbles)@ == layered(old(bubbles)@, bubble_depths(old(bubbles)@)),
        final(seaweeds)@ == layered(old(seaweeds)@, seaweed_depths(old(seaweeds)@)),
        cells(lines@) == scene_picture(
            fishes@,
            final(bubbles)@,
            final(seaweeds)@,
            cols,
            rows,
            inner_width,
            inner_height,
        ),
        scene_ready(fishes@, old(bubbles)@, old(seaweeds)@, cols, rows) ==> scene_ready(
            fishes@,
            final(bubbles)@,
            final(seaweeds)@,
            cols,
            rows,
        ),
{
    let mut lines = blank_lines(inner_width as usize, inner_height as usize);
    assert(lines@.len() == inner_height);
    paint_fishes(&mut lines, fishes, inner_width);
    let ghost zs = bubble_depths(old(bubbles)@);
    sort_bubbles(bubbles);
    proof {
        crate::layers::lemma_layers_below_bounded(zs, 256);
        assert forall|j: int|
            0 <= j < bubbles@.len() && (#[trigger] bubbles@[j]).y < inner_height implies inner_width > 0
                && bubbles@[j].frame < 3 by {
            let k = crate::layers::layer_order(zs)[j];
            assert(bubbles@[j] == old(bubbles)@[k as int]);
        }
    }
    proof {
        if forall|j: int| 0 <= j < old(bubbles)@.len() ==> (#[trigger] old(bubbles)@[j]).frame < 3 {
            assert forall|j: int| 0 <= j < bubbles@.len() implies (#[trigger] bubbles@[j]).frame < 3 by {
                let k = crate::layers::layer_order(zs)[j];
                assert(bubbles@[j] == old(bubbles)@[k as int]);
            }
        }
    }
    paint_bubbles(&mut lines, bubbles, inner_width);
    let ghost before_floor = cells(lines@);
    draw_seaweed(&mut lines, cols, rows);
    proof {
        crate::classic::seaweed::lemma_weed_painted_shape(before_floor, cols, rows);
    }
    let ghost zs2 = seaweed_depths(old(seaweeds)@);
    sort_seaweeds(seaweeds);
    proof {
        crate::layers::lemma_layers_below_bounded(zs2, 256);
        assert forall|j: int| 0 <= j < seaweeds@.len() implies (#[trigger] seaweeds@[j]).frame < 2 by {
            let k = crate::layers::layer_order(zs2)[j];
            assert(seaweeds@[j] == old(seaweeds)@[k as int]);
        }
        if seaweeds@.len() > 0 {
            assert(crate::layers::layer_order(zs2)[0] < zs2.len());
        }
    }
    paint_strands(&mut lines, seaweeds, inner_width, inner_height);
    proof {
        reveal_strlit(r#"
  ____KAME____
 /   HOUSE    \
/______________\
| []   __   [] |
|____|_____|___|
"#);
    }
    paint_house(&mut lines, KAME_HOUSE, cols, rows, false);
    lines
}

/// Painting a fish after fish keeps the picture's shape.
pub proof fn lemma_fishes_painted_shape(grid: Seq<Seq<Cell>>, fs: Seq<Fish>, width: u16)
    ensures
        same_shape(fishes_painted(grid, fs, width), grid),
    decreases fs.len(),
{
    if fs.len() > 0 {
        lemma_fishes_painted_shape(grid, fs.drop_last(), width);
        let f = fs.last();
        crate::renderer::lemma_body_painted_shape(
            fishes_painted(grid, fs.drop_last(), width),
            f.body_lines(),
            f.x,
            f.y,
            f.color,
            width,
        );
    }
}

/// Painting a bubble keeps the picture's shape.
pub proof fn lemma_dot_painted_shape(grid: Seq<Seq<Cell>>, b: Bubble, width: u16)
    ensures
        same_shape(dot_painted(grid, b, width), grid),
{
    let g2 = dot_painted(grid, b, width);
    let y = b.y as int;
    let x = if b.x < width - 1 {
        b.x as int
    } else {
        width - 1
    };
    if y < grid.len() && 0 <= x < grid[y].len() {
        let cell = painted(BUBBLE_FRAMES@[b.frame as int]@[0], Color::Cyan);
        assert(g2 == grid.update(y, grid[y].update(x, cell)));
        assert forall|r: int| 0 <= r < g2.len() implies #[trigger] g2[r].len() == grid[r].len() by {
            if r == y {
                assert(g2[r] == grid[y].update(x, cell));
            }
        }
    }
}

/// Painting bubble after bubble keeps the picture's shape.
pub proof fn lemma_bubbles_painted_shape(grid: Seq<Seq<Cell>>, bs: Seq<Bubble>, width: u16)
    ensures
        same_shape(bubbles_painted(grid, bs, width), grid),
    decreases bs.len(),
{
    if bs.len() > 0 {
        lemma_bubbles_painted_shape(grid, bs.drop_last(), width);
        lemma_dot_painted_shape(bubbles_painted(grid, bs.drop_last(), width), bs.last(), width);
    }
}

/// Painting strand after strand keeps the picture's shape.
pub proof fn lemma_strands_painted_shape(grid: Seq<Seq<Cell>>, ss: Seq<Seaweed>, width: u16, height: u16)
    ensures
        same_shape(strands_painted(grid, ss, width, height), grid),
    decreases ss.len(),
{
    if ss.len() > 0 {
        lemma_strands_painted_shape(grid, ss.drop_last(), width, height);
        let s = ss.last();
        let g = strands_painted(grid, ss.drop_last(), width, height);
        let strokes = shown_strokes(seaweed_symbol(s.frame as int), s.height as int);
        let x = if s.x < width - 1 {
            s.x as int
        } else {
            width - 1
        };
        let y = if s.y < height - 1 {
            s.y as int
        } else {
            height - 1
        };
        crate::renderer::lemma_strokes_painted_shape(g, strokes, x, y, strokes.len());
    }
}

/// Every frame's picture is `height` rows of `width` cells, whatever the creatures do.
pub proof fn lemma_scene_picture_shape(
    fs: Seq<Fish>,
    bs: Seq<Bubble>,
    ss: Seq<Seaweed>,
    cols: u16,
    rows: u16,
    width: u16,
    height: u16,
)
    ensures
        same_shape(
            scene_picture(fs, bs, ss, cols, rows, width, height),
            blank_picture(width as nat, height as nat),
        ),
        scene_picture(fs, bs, ss, cols, rows, width, height).len() == height,
        forall|r: int| 0 <= r < height ==> #[trigger] scene_picture(fs, bs, ss, cols, rows, width, height)[r].len() == width,
{
    let water = blank_picture(width as nat, height as nat);
    let g1 = fishes_painted(water, fs, width);
    lemma_fishes_painted_shape(water, fs, width);
    let g2 = bubbles_painted(g1, bs, width);
    lemma_bubbles_painted_shape(g1, bs, width);
    let g3 = weed_painted(g2, cols, rows);
    crate::classic::seaweed::lemma_weed_painted_shape(g2, cols, rows);
    let g4 = strands_painted(g3, ss, width, height);
    lemma_strands_painted_shape(g3, ss, width, height);
    crate::renderer::lemma_house_painted_shape(g4, KAME_HOUSE@, cols, rows, false);
    let g5 = scene_picture(fs, bs, ss, cols, rows, width, height);
    assert forall|r: int| 0 <= r < height implies #[trigger] g5[r].len() == width by {
        assert(g5[r].len() == g4[r].len());
        assert(g4[r].len() == g3[r].len());
        assert(g3[r].len() == g2[r].len());
        assert(g2[r].len() == g1[r].len());
        assert(g1[r].len() == water[r].len());
    }
}

/// The house is drawn over everything: on each cell of a frame's picture that character
/// `dx` of line `dy` of the house falls on, that character shows in magenta, whatever fish,
/// bubble, sea floor or strand of seaweed is there.
pub proof fn lemma_house_on_top(
    fs: Seq<Fish>,
    bs: Seq<Bubble>,
    ss: Seq<Seaweed>,
    cols: u16,
    rows: u16,
    width: u16,
    height: u16,
    dy: int,
    dx: int,
)
    requires
        0 <= dy < text_lines(KAME_HOUSE@).len(),
        0 <= dx < text_lines(KAME_HOUSE@)[dy].len(),
        sat_sub(rows as int, text_lines(KAME_HOUSE@).len() + 4int) + dy < height,
        sat_sub(cols as int, widest(text_lines(KAME_HOUSE@)) + 2int) + dx < width,
    ensures
        ({
            let art = text_lines(KAME_HOUSE@);
            let sx = sat_sub(cols as int, widest(art) + 2int);
            let sy = sat_sub(rows as int, art.len() + 4int);
            scene_picture(fs, bs, ss, cols, rows, width, height)[sy + dy][sx + dx] == painted(
                art[dy][dx],
                Color::Magenta,
            )
        }),
{
    let art = text_lines(KAME_HOUSE@);
    let sx = sat_sub(cols as int, widest(art) + 2int);
    let sy = sat_sub(rows as int, art.len() + 4int);
    let water = blank_picture(width as nat, height as nat);
    let g1 = fishes_painted(water, fs, width);
    lemma_fishes_painted_shape(water, fs, width);
    let g2 = bubbles_painted(g1, bs, width);
    lemma_bubbles_painted_shape(g1, bs, width);
    let g3 = weed_painted(g2, cols, rows);
    crate::classic::seaweed::lemma_weed_painted_shape(g2, cols, rows);
    let g4 = strands_painted(g3, ss, width, height);
    lemma_strands_painted_shape(g3, ss, width, height);
    let r = sy + dy;
    assert(g4[r].len() == g3[r].len());
    assert(g3[r].len() == g2[r].len());
    assert(g2[r].len() == g1[r].len());
    assert(g1[r].len() == water[r].len());
    crate::renderer::lemma_house_painted_cell(g4, KAME_HOUSE@, cols, rows, false, r, sx + dx);
}

/// Putting strands in drawing order is a stable sort by depth: the result holds, at each
/// place `j`, the input's strand at position `p[j]`, each position once; depth layers never
/// decrease along it, so the deepest layer (smallest `z_index`) comes first; and strands of
/// one layer keep their input order.
pub proof fn lemma_seaweeds_sorted_by_depth(xs: Seq<Seaweed>) -> (p: Seq<int>)
    requires
        xs.len() <= usize::MAX,
    ensures
        ({
            let r = layered(xs, seaweed_depths(xs));
            &&& r.len() == xs.len()
            &&& p.len() == xs.len()
            &&& forall|j: int| 0 <= j < xs.len() ==> 0 <= #[trigger] p[j] < xs.len() && r[j] == xs[p[j]]
            &&& forall|j1: int, j2: int| 0 <= j1 < j2 < xs.len() ==> #[trigger] p[j1] != #[trigger] p[j2]
            &&& forall|j1: int, j2: int| 0 <= j1 < j2 < xs.len() ==> #[trigger] r[j1].z_index <= #[trigger] r[j2].z_index
            &&& forall|j1: int, j2: int|
                0 <= j1 < j2 < xs.len() && r[j1].z_index == r[j2].z_index ==> #[trigger] p[j1] < #[trigger] p[j2]
        }),
{
    let zs = seaweed_depths(xs);
    let o = crate::layers::layer_order(zs);
    crate::layers::lemma_layer_order_is_stable_sort(zs);
    crate::layers::lemma_layered_is_stable_sort(xs, zs);
    let r = layered(xs, zs);
    let p = o.map_values(|u: usize| u as int);
    assert forall|j: int| 0 <= j < xs.len() implies 0 <= #[trigger] p[j] < xs.len() && r[j] == xs[p[j]] by {
        assert(p[j] == o[j] as int);
    }
    assert forall|j1: int, j2: int| 0 <= j1 < j2 < xs.len() implies #[trigger] p[j1] != #[trigger] p[j2] by {
        assert(o[j1] != o[j2]);
    }
    assert forall|j1: int, j2: int| 0 <= j1 < j2 < xs.len() implies #[trigger] r[j1].z_index <= #[trigger] r[j2].z_index by {
        assert(zs[o[j1] as int] <= zs[o[j2] as int]);
        assert(r[j1] == xs[o[j1] as int] && r[j2] == xs[o[j2] as int]);
    }
    assert forall|j1: int, j2: int|
        0 <= j1 < j2 < xs.len() && r[j1].z_index == r[j2].z_index implies #[trigger] p[j1] < #[trigger] p[j2] by {
        assert(r[j1] == xs[o[j1] as int] && r[j2] == xs[o[j2] as int]);
        assert(zs[o[j1] as int] == zs[o[j2] as int]);
    }
    p
}

/// Putting bubbles in drawing order is a stable sort by depth: the result holds, at each
/// place `j`, the input's bubble at position `p[j]`, each position once; depth layers never
/// decrease along it, so the deepest layer (smallest `z_index`) comes first; and bubbles of
/// one layer keep their input order.
pub proof fn lemma_bubbles_sorted_by_depth(xs: Seq<Bubble>) -> (p: Seq<int>)
    requires
        xs.len() <= usize::MAX,
    ensures
        ({
            let r = layered(xs, bubble_depths(xs));
            &&& r.len() == xs.len()
            &&& p.len() == xs.len()
            &&& forall|j: int| 0 <= j < xs.len() ==> 0 <= #[trigger] p[j] < xs.len() && r[j] == xs[p[j]]
            &&& forall|j1: int, j2: int| 0 <= j1 < j2 < xs.len() ==> #[trigger] p[j1] != #[trigger] p[j2]
            &&& forall|j1: int, j2: int| 0 <= j1 < j2 < xs.len() ==> #[trigger] r[j1].z_index <= #[trigger] r[j2].z_index
            &&& forall|j1: int, j2: int|
                0 <= j1 < j2 < xs.len() && r[j1].z_index == r[j2].z_index ==> #[trigger] p[j1] < #[trigger] p[j2]
        }),
{
    let zs = bubble_depths(xs);
    let o = crate::layers::layer_order(zs);
    crate::layers::lemma_layer_order_is_stable_sort(zs);
    crate::layers::lemma_layered_is_stable_sort(xs, zs);
    let r = layered(xs, zs);
    let p = o.map_values(|u: usize| u as int);
    assert forall|j: int| 0 <= j < xs.len() implies 0 <= #[trigger] p[j] < xs.len() && r[j] == xs[p[j]] by {
        assert(p[j] == o[j] as int);
    }
    assert forall|j1: int, j2: int| 0 <= j1 < j2 < xs.len() implies #[trigger] p[j1] != #[trigger] p[j2] by {
        assert(o[j1] != o[j2]);
    }
    assert forall|j1: int, j2: int| 0 <= j1 < j2 < xs.len() implies #[trigger] r[j1].z_index <= #[trigger] r[j2].z_index by {
        assert(zs[o[j1] as int] <= zs[o[j2] as int]);
        assert(r[j1] == xs[o[j1] as int] && r[j2] == xs[o[j2] as int]);
    }
    assert forall|j1: int, j2: int|
        0 <= j1 < j2 < xs.len() && r[j1].z_index == r[j2].z_index implies #[trigger] p[j1] < #[trigger] p[j2] by {
        assert(r[j1] == xs[o[j1] as int] && r[j2] == xs[o[j2] as int]);
        assert(zs[o[j1] as int] == zs[o[j2] as int]);
    }
    p
}

/// The fish that stay after a move come out moved and in their input order: `survivors`
/// holds, at each place `k`, the moved fish from position `idx[k]`, a fish that stays;
/// the positions increase along it; and every fish that stays is there.
pub proof fn lemma_survivors_in_order(fs: Seq<Fish>, max_x: u16) -> (idx: Seq<int>)
    ensures
        idx.len() == survivors(fs, max_x).len(),
        forall|k: int|
            0 <= k < idx.len() ==> 0 <= #[trigger] idx[k] < fs.len() && stays(fs[idx[k]], max_x)
                && survivors(fs, max_x)[k] == swum(fs[idx[k]]),
        forall|k1: int, k2: int| 0 <= k1 < k2 < idx.len() ==> #[trigger] idx[k1] < #[trigger] idx[k2],
        forall|i: int| 0 <= i < fs.len() && stays(#[trigger] fs[i], max_x) ==> exists|k: int| 0 <= k < idx.len() && idx[k] == i,
    decreases fs.len(),
{
    if fs.len() == 0 {
        Seq::empty()
    } else {
        let p = fs.drop_last();
        let pi = lemma_survivors_in_order(p, max_x);
        let n = fs.len() - 1;
        let sp = survivors(p, max_x);
        let s = survivors(fs, max_x);
        let idx = if stays(fs[n], max_x) {
            pi.push(n)
        } else {
            pi
        };
        assert forall|k: int| 0 <= k < pi.len() implies #[trigger] idx[k] == pi[k] && s[k] == sp[k] && fs[pi[k]] == p[pi[k]] by {
            assert(p[pi[k]] == fs[pi[k]]);
        }
        assert forall|k: int|
            0 <= k < idx.len() implies 0 <= #[trigger] idx[k] < fs.len() && stays(fs[idx[k]], max_x) && s[k] == swum(fs[idx[k]]) by {
            if k < pi.len() {
                assert(idx[k] == pi[k] && s[k] == sp[k] && fs[pi[k]] == p[pi[k]]);
            }
        }
        assert forall|k1: int, k2: int| 0 <= k1 < k2 < idx.len() implies #[trigger] idx[k1] < #[trigger] idx[k2] by {
            assert(idx[k1] == pi[k1]);
            if k2 < pi.len() {
                assert(idx[k2] == pi[k2]);
            }
        }
        assert forall|i: int| 0 <= i < fs.len() && stays(#[trigger] fs[i], max_x) implies exists|k: int|
            0 <= k < idx.len() && idx[k] == i by {
            if i < n {
                assert(p[i] == fs[i]);
                assert(stays(p[i], max_x));
                let k = choose|k: int| 0 <= k < pi.len() && pi[k] == i;
                assert(idx[k] == pi[k]);
            } else {
                assert(idx[idx.len() - 1] == n);
            }
        }
        idx
    }
}

/// The last bubble painted shows its current look, `BUBBLE_FRAMES[frame]`, in cyan, on its
/// row and its column moved onto the last of `width` columns, whatever was there before.
pub proof fn lemma_last_bubble_shows_its_look(grid: Seq<Seq<Cell>>, bs: Seq<Bubble>, width: u16)
    requires
        bs.len() > 0,
        bs.last().y < grid.len(),
        0 <= (if bs.last().x < width - 1 {
            bs.last().x as int
        } else {
            width - 1
        }) < grid[bs.last().y as int].len(),
    ensures
        ({
            let b = bs.last();
            let col = if b.x < width - 1 {
                b.x as int
            } else {
                width - 1
            };
            bubbles_painted(grid, bs, width)[b.y as int][col] == (Cell {
                ch: BUBBLE_FRAMES@[b.frame as int]@[0],
                fg: Some(Color::Cyan),
            })
        }),
{
    let g = bubbles_painted(grid, bs.drop_last(), width);
    lemma_bubbles_painted_shape(grid, bs.drop_last(), width);
    assert(g[bs.last().y as int].len() == grid[bs.last().y as int].len());
}

/// The last strand painted shows its bends from its foot upwards, green, in its column
/// (moved onto the last of `width` columns): the bend `k` rows above its foot (row 0 once
/// `k` passes the foot's row) is `(` when `k` and the strand's look are both even or both
/// odd, else `)`. A strand shows at most `height` lines and at most five bends.
pub proof fn lemma_last_strand_shows_its_bends(
    grid: Seq<Seq<Cell>>,
    ss: Seq<Seaweed>,
    width: u16,
    height: u16,
    k: int,
)
    requires
        ss.len() > 0,
        ss.last().frame < 2,
        0 <= k < 5,
        k < ss.last().height,
        ({
            let s = ss.last();
            let x = if s.x < width - 1 {
                s.x as int
            } else {
                width - 1
            };
            let y = if s.y < height - 1 {
                s.y as int
            } else {
                height - 1
            };
            &&& k < y || k + 1 == s.height
            &&& 0 <= sat_sub(y, k) < grid.len()
            &&& 0 <= x < grid[sat_sub(y, k)].len()
        }),
    ensures
        ({
            let s = ss.last();
            let x = if s.x < width - 1 {
                s.x as int
            } else {
                width - 1
            };
            let y = if s.y < height - 1 {
                s.y as int
            } else {
                height - 1
            };
            strands_painted(grid, ss, width, height)[sat_sub(y, k)][x] == (Cell {
                ch: if (k + s.frame) % 2 == 0 {
                    '('
                } else {
                    ')'
                },
                fg: Some(Color::Green),
            })
        }),
{
    let s = ss.last();
    let x = if s.x < width - 1 {
        s.x as int
    } else {
        width - 1
    };
    let y = if s.y < height - 1 {
        s.y as int
    } else {
        height - 1
    };
    crate::classic::seaweed::lemma_seaweed_looks();
    let sym = seaweed_symbol(s.frame as int);
    let strokes = shown_strokes(sym, s.height as int);
    assert(strokes[k] == sym[5 - k]);
    assert(strokes[k].len() == 1);
    if s.frame == 0 {
        assert(strokes[k][0] == if k % 2 == 0 {
            '('
        } else {
            ')'
        });
    } else {
        assert(strokes[k][0] == if k % 2 == 0 {
            ')'
        } else {
            '('
        });
    }
    let g = strands_painted(grid, ss.drop_last(), width, height);
    lemma_strands_painted_shape(grid, ss.drop_last(), width, height);
    assert(g[sat_sub(y, k)].len() == grid[sat_sub(y, k)].len());
    crate::renderer::lemma_strokes_painted_cell(g, strokes, x, y, strokes.len(), k, 0);
}

/// The last fish painted is on top: each character of its drawing shows, in its colour, on
/// its own cell (row `y + dy`, column `start_col(x) + i`) whenever that cell is in the grid
/// and among the first `width` columns, whatever fish were painted before it.
pub proof fn lemma_last_fish_on_top(grid: Seq<Seq<Cell>>, fs: Seq<Fish>, width: u16, dy: int, i: int)
    requires
        fs.len() > 0,
        0 <= dy < fs.last().body_lines().len(),
        0 <= i < fs.last().body_lines()[dy].len(),
        fs.last().y + dy < grid.len(),
        0 <= crate::renderer::start_col(fs.last().x) + i < width,
        crate::renderer::start_col(fs.last().x) + i < grid[fs.last().y + dy].len(),
    ensures
        fishes_painted(grid, fs, width)[fs.last().y + dy][crate::renderer::start_col(fs.last().x) + i] == (Cell {
            ch: fs.last().body_lines()[dy][i],
            fg: Some(fs.last().color),
        }),
{
    let f = fs.last();
    let g = fishes_painted(grid, fs.drop_last(), width);
    lemma_fishes_painted_shape(grid, fs.drop_last(), width);
    let r = f.y + dy;
    assert(g[r].len() == grid[r].len());
    crate::renderer::lemma_body_painted_cell(g, f.body_lines(), f.x, f.y, f.color, width, r, crate::renderer::start_col(f.x) + i);
}

/// Whether cell (`r`, `c`) lies outside the box that the house takes on a `cols` by `rows`
/// screen: its lines, from the row it starts on, and its widest line, from the column it
/// starts in.
pub open spec fn off_house(cols: u16, rows: u16, r: int, c: int) -> bool {
    let art = text_lines(KAME_HOUSE@);
    let sx = sat_sub(cols as int, widest(art) + 2int);
    let sy = sat_sub(rows as int, art.len() + 4int);
    !(sy <= r < sy + art.len() && sx <= c < sx + widest(art))
}

/// Bubbles are drawn over the fish: in a frame without seaweed, the last bubble shows its
/// current look in cyan on its cell (its row, and its column moved onto the last of the
/// `width` columns), whatever fish are there, as long as the cell is above the sea floor
/// and off the house.
pub proof fn lemma_bubble_over_fish(
    fs: Seq<Fish>,
    bs: Seq<Bubble>,
    cols: u16,
    rows: u16,
    width: u16,
    height: u16,
)
    requires
        bs.len() > 0,
        bs.last().y < height,
        bs.last().y < rows - 4,
        0 <= (if bs.last().x < width - 1 {
            bs.last().x as int
        } else {
            width - 1
        }) < width,
        off_house(
            cols,
            rows,
            bs.last().y as int,
            if bs.last().x < width - 1 {
                bs.last().x as int
            } else {
                width - 1
            },
        ),
    ensures
        ({
            let b = bs.last();
            let col = if b.x < width - 1 {
                b.x as int
            } else {
                width - 1
            };
            scene_picture(fs, bs, Seq::empty(), cols, rows, width, height)[b.y as int][col] == (Cell {
                ch: BUBBLE_FRAMES@[b.frame as int]@[0],
                fg: Some(Color::Cyan),
            })
        }),
{
    let b = bs.last();
    let col = if b.x < width - 1 {
        b.x as int
    } else {
        width - 1
    };
    let r = b.y as int;
    let water = blank_picture(width as nat, height as nat);
    let g1 = fishes_painted(water, fs, width);
    lemma_fishes_painted_shape(water, fs, width);
    assert(g1[r].len() == water[r].len());
    lemma_last_bubble_shows_its_look(g1, bs, width);
    let g2 = bubbles_painted(g1, bs, width);
    lemma_bubbles_painted_shape(g1, bs, width);
    crate::classic::seaweed::lemma_weed_cell(g2, cols, rows, r, col);
    let g3 = weed_painted(g2, cols, rows);
    crate::classic::seaweed::lemma_weed_painted_shape(g2, cols, rows);
    let g4 = strands_painted(g3, Seq::empty(), width, height);
    assert(g4 == g3);
    crate::renderer::lemma_house_painted_cell(g4, KAME_HOUSE@, cols, rows, false, r, col);
}

/// Strands are drawn over the fish, the bubbles and the sea floor: in a frame, the bends of
/// the last strand show in green from its foot upwards (as `lemma_last_strand_shows_its_bends`
/// states), whatever else is there, on each cell off the house.
pub proof fn lemma_strand_over_floor(
    fs: Seq<Fish>,
    bs: Seq<Bubble>,
    ss: Seq<Seaweed>,
    cols: u16,
    rows: u16,
    width: u16,
    height: u16,
    k: int,
)
    requires
        ss.len() > 0,
        ss.last().frame < 2,
        0 <= k < 5,
        k < ss.last().height,
        ({
            let s = ss.last();
            let x = if s.x < width - 1 {
                s.x as int
            } else {
                width - 1
            };
            let y = if s.y < height - 1 {
                s.y as int
            } else {
                height - 1
            };
            &&& k < y || k + 1 == s.height
            &&& 0 <= sat_sub(y, k) < height
            &&& 0 <= x < width
            &&& off_house(cols, rows, sat_sub(y, k), x)
        }),
    ensures
        ({
            let s = ss.last();
            let x = if s.x < width - 1 {
                s.x as int
            } else {
                width - 1
            };
            let y = if s.y < height - 1 {
                s.y as int
            } else {
                height - 1
            };
            scene_picture(fs, bs, ss, cols, rows, width, height)[sat_sub(y, k)][x] == (Cell {
                ch: if (k + s.frame) % 2 == 0 {
                    '('
                } else {
                    ')'
                },
                fg: Some(Color::Green),
            })
        }),
{
    let s = ss.last();
    let x = if s.x < width - 1 {
        s.x as int
    } else {
        width - 1
    };
    let y = if s.y < height - 1 {
        s.y as int
    } else {
        height - 1
    };
    let r = sat_sub(y, k);
    let water = blank_picture(width as nat, height as nat);
    let g1 = fishes_painted(water, fs, width);
    lemma_fishes_painted_shape(water, fs, width);
    let g2 = bubbles_painted(g1, bs, width);
    lemma_bubbles_painted_shape(g1, bs, width);
    let g3 = weed_painted(g2, cols, rows);
    crate::classic::seaweed::lemma_weed_painted_shape(g2, cols, rows);
    assert(g3[r].len() == water[r].len()) by {
        assert(g3[r].len() == g2[r].len());
        assert(g2[r].len() == g1[r].len());
    }
    lemma_last_strand_shows_its_bends(g3, ss, width, height, k);
    let g4 = strands_painted(g3, ss, width, height);
    lemma_strands_painted_shape(g3, ss, width, height);
    crate::renderer::lemma_house_painted_cell(g4, KAME_HOUSE@, cols, rows, false, r, x);
}

/// Fish show in open water: in a frame without bubbles or seaweed, each character of the
/// last fish's drawing shows in its colour on its own cell, as long as the cell is in the
/// picture, above the sea floor and off the house.
pub proof fn lemma_fish_in_open_water(
    fs: Seq<Fish>,
    cols: u16,
    rows: u16,
    width: u16,
    height: u16,
    dy: int,
    i: int,
)
    requires
        fs.len() > 0,
        0 <= dy < fs.last().body_lines().len(),
        0 <= i < fs.last().body_lines()[dy].len(),
        fs.last().y + dy < height,
        fs.last().y + dy < rows - 4,
        0 <= crate::renderer::start_col(fs.last().x) + i < width,
        off_house(cols, rows, fs.last().y + dy, crate::renderer::start_col(fs.last().x) + i),
    ensures
        scene_picture(fs, Seq::empty(), Seq::empty(), cols, rows, width, height)[fs.last().y
            + dy][crate::renderer::start_col(fs.last().x) + i] == (Cell {
            ch: fs.last().body_lines()[dy][i],
            fg: Some(fs.last().color),
        }),
{
    let f = fs.last();
    let r = f.y + dy;
    let c = crate::renderer::start_col(f.x) + i;
    let water = blank_picture(width as nat, height as nat);
    assert(water[r].len() == width);
    lemma_last_fish_on_top(water, fs, width, dy, i);
    let g1 = fishes_painted(water, fs, width);
    lemma_fishes_painted_shape(water, fs, width);
    let g2 = bubbles_painted(g1, Seq::empty(), width);
    assert(g2 == g1);
    crate::classic::seaweed::lemma_weed_cell(g2, cols, rows, r, c);
    let g3 = weed_painted(g2, cols, rows);
    crate::classic::seaweed::lemma_weed_painted_shape(g2, cols, rows);
    let g4 = strands_painted(g3, Seq::empty(), width, height);
    assert(g4 == g3);
    crate::renderer::lemma_house_painted_cell(g4, KAME_HOUSE@, cols, rows, false, r, c);
}

} // verus!
