//! The creatures of the aquarium: how each one starts out, how it moves from one frame to the
//! next, and what it looks like.
use vstd::prelude::*;
use vstd::std_specs::cmp::{PartialEqSpec, PartialEqSpecImpl};

use rand::rngs::ThreadRng;

use crate::chance::{choose_one, pick_weighted, random_range_inclusive_usize, random_range_u16, random_ratio};
use crate::color::Color;
use crate::text::{art_lines, lines, str_views, text_lines, trim, trim_chars, trim_end_chars};

verus! {

broadcast use vstd::string::group_string_axioms;

/// Which way a creature swims.
#[derive(Clone, Copy, Debug, PartialEq, Eq, Structural)]
pub enum Direction {
    Left,
    Right,
}

/// A fish: where its drawing starts, the drawing, line by line, and how fast it swims.
#[derive(Clone)]
pub struct Fish {
    pub x: u16,
    pub y: u16,
    pub body: Vec<String>,
    pub color: Color,
    pub speed: u16,
    pub direction: Direction,
}

/// Two fish are equal when they are at the same place, whatever they look like.
impl PartialEq for Fish {
    fn eq(&self, other: &Self) -> (r: bool) {
        self.x == other.x && self.y == other.y
    }
}

impl PartialEqSpecImpl for Fish {
    open spec fn obeys_eq_spec() -> bool {
        true
    }

    open spec fn eq_spec(&self, other: &Self) -> bool {
        self.x == other.x && self.y == other.y
    }
}

/// A bubble rising through the water; `frame` picks its current look.
pub struct Bubble {
    pub x: u16,
    pub y: u16,
    pub frame: usize,
    pub z_index: u8,
    pub color: Color,
}

/// A strand of seaweed swaying between two looks; `height` is how many of its lines show.
pub struct Seaweed {
    pub x: u16,
    pub y: u16,
    pub frame: usize,
    pub z_index: u8,
    pub height: usize,
}

/// A turtle (declared, not yet animated).
pub struct Turtle {
    pub x: u16,
    pub y: u16,
    pub body: Vec<String>,
    pub color: Color,
    pub speed: u16,
    pub direction: Direction,
    pub frame: usize,
}

/// A shark (declared, not yet animated).
pub struct Shark {
    pub x: u16,
    pub y: u16,
    pub body: Vec<String>,
    pub color: Color,
    pub speed: u16,
    pub direction: Direction,
}

/// The drawings of right-swimming fish, each with the weight of its chance to be picked.
pub const RIGHT_FISH: [(&'static str, u32); 5] = [
    ("><((°>", 3),
    ("><>", 3),
    (">º)))>", 3),
    (r#"
  \\
 / \\
>=_('>
 \\_/
   /"#, 1),
    (r#"
        ,--,_
__    _\\.---'-.
\\ '.-"     // o\\
/_.'-.-_   \\\\  /
        `"--(/"#, 1),
];

/// The drawings of left-swimming fish, each with the weight of its chance to be picked.
pub const LEFT_FISH: [(&'static str, u32); 5] = [
    ("<°))><", 3),
    ("<><", 3),
    ("<(((º<", 3),
    (r#"
  /
 / \\
<')_=<
 \\_/
  \\"#, 2),
    (r#"
    _,--,
 .-'---./___    __
/o \\\\     "-.' /
\\  //    _.-'._\\
  `"\\)--"#, 1),
];

/// The looks a bubble goes through, one per frame.
pub const BUBBLE_FRAMES: [&'static str; 6] = [".", "·", "o", "°", "O", "0"];

/// The two looks of a strand of seaweed.
pub const SEAWEED_FRAMES: [&'static str; 2] = [
        "
        (
        )
        (
        )
        (",
        "
        )
        (
        )
        (
        )",
];

/// The drawings (with their weights) that a fish swimming in `direction` may have.
pub open spec fn fish_kinds(direction: Direction) -> Seq<(&'static str, u32)> {
    match direction {
        Direction::Right => RIGHT_FISH@,
        Direction::Left => LEFT_FISH@,
    }
}

/// The lines of drawing `kind` for `direction`, without trailing white space.
pub open spec fn fish_body(direction: Direction, kind: int) -> Seq<Seq<char>> {
    text_lines(fish_kinds(direction)[kind].0@).map_values(|l: Seq<char>| trim_end_chars(l))
}

/// Where a new fish starts: at the left edge when it swims right, at `max_x` otherwise.
pub open spec fn start_x(direction: Direction, max_x: u16) -> u16 {
    match direction {
        Direction::Right => 0,
        Direction::Left => max_x,
    }
}

/// The colours a new fish is drawn from, each with the same chance.
pub const FISH_PALETTE: [Color; 4] = [Color::Cyan, Color::LightMagenta, Color::Yellow, Color::LightBlue];

/// A new fish swims right with chance `RIGHTWARD_CHANCE` in `CHANCE_OUT_OF`, else left.
pub const RIGHTWARD_CHANCE: u32 = 1;

/// See `RIGHTWARD_CHANCE`.
pub const CHANCE_OUT_OF: u32 = 2;

/// The slowest speed of a new fish.
pub const SLOWEST: u16 = 1;

/// The speed just above the fastest of a new fish: speeds are drawn from `SLOWEST..SPEED_BOUND`.
pub const SPEED_BOUND: u16 = 3;

/// The highest row a new fish may swim on.
pub const TOP_ROW: u16 = 2;

/// How many of the bottom rows up to `max_y` a new fish keeps clear of: rows are drawn from
/// `TOP_ROW..max_y - BOTTOM_CLEARANCE`.
pub const BOTTOM_CLEARANCE: u16 = 4;

/// The colours a fish may have.
pub open spec fn fish_palette() -> Seq<Color> {
    FISH_PALETTE@
}

/// The colours a new bubble is drawn from, each with the same chance.
pub const BUBBLE_PALETTE: [Color; 4] = [Color::Cyan, Color::LightBlue, Color::White, Color::LightCyan];

/// The fewest lines of a new strand that show.
pub const SHORTEST: usize = 2;

/// The most lines of a new strand that show: heights are drawn from `SHORTEST..=TALLEST`.
pub const TALLEST: usize = 6;

/// The colours a bubble may have.
pub open spec fn bubble_palette() -> Seq<Color> {
    BUBBLE_PALETTE@
}

/// The fish after one move: a right-swimmer goes `speed` cells right; a left-swimmer goes
/// `speed` cells left unless that would take it to or past the left edge, where it stays.
pub open spec fn swum(f: Fish) -> Fish {
    match f.direction {
        Direction::Right => Fish { x: (f.x + f.speed) as u16, ..f },
        Direction::Left => if f.x <= f.speed {
            f
        } else {
            Fish { x: (f.x - f.speed) as u16, ..f }
        },
    }
}

/// Whether the fish is still in the water after its move: a right-swimmer until it is ten
/// cells past `max_x`, a left-swimmer until it reaches the left edge.
pub open spec fn stays(f: Fish, max_x: u16) -> bool {
    match f.direction {
        Direction::Right => f.x + f.speed < max_x + 10,
        Direction::Left => f.x > f.speed,
    }
}

/// A right-swimmer's move, and the edge it is compared with, fit in a `u16`.
pub open spec fn can_swim(f: Fish, max_x: u16) -> bool {
    f.direction == Direction::Right ==> f.x + f.speed <= u16::MAX && max_x + 10 <= u16::MAX
}

/// The bubble after one frame: one row higher, or, from the top row, back at row `max_y`
/// and column `respawn_x`; its look advances to the next frame.
pub open spec fn risen(b: Bubble, max_y: u16, respawn_x: u16) -> Bubble {
    Bubble {
        x: if b.y > 0 { b.x } else { respawn_x },
        y: if b.y > 0 { (b.y - 1) as u16 } else { max_y },
        frame: ((b.frame + 1) % 6) as usize,
        z_index: b.z_index,
        color: b.color,
    }
}

/// The strand after one frame: it sways to its other look, and nothing else changes.
pub open spec fn swayed(s: Seaweed) -> Seaweed {
    Seaweed { frame: ((s.frame + 1) % 2) as usize, ..s }
}

/// The bubble after `n` frames, reappearing at `respawn_x` whenever it leaves the top.
pub open spec fn risen_times(b: Bubble, max_y: u16, respawn_x: u16, n: nat) -> Bubble
    decreases n,
{
    if n == 0 {
        b
    } else {
        risen(risen_times(b, max_y, respawn_x, (n - 1) as nat), max_y, respawn_x)
    }
}

/// The lines of seaweed look `frame`, trimmed of white space on both sides.
pub open spec fn seaweed_symbol(frame: int) -> Seq<Seq<char>> {
    text_lines(SEAWEED_FRAMES@[frame]@).map_values(|l: Seq<char>| trim_chars(l))
}

/// Each look of a bubble is a single character.
pub proof fn lemma_bubble_frames_single_chars()
    ensures
        BUBBLE_FRAMES@.len() == 6,
        forall|k: int| 0 <= k < BUBBLE_FRAMES@.len() ==> #[trigger] BUBBLE_FRAMES@[k]@.len() == 1,
        BUBBLE_FRAMES@[0]@[0] == '.',
        BUBBLE_FRAMES@[1]@[0] == '·',
        BUBBLE_FRAMES@[2]@[0] == 'o',
        BUBBLE_FRAMES@[3]@[0] == '°',
        BUBBLE_FRAMES@[4]@[0] == 'O',
        BUBBLE_FRAMES@[5]@[0] == '0',
{
    reveal_strlit(".");
    reveal_strlit("·");
    reveal_strlit("o");
    reveal_strlit("°");
    reveal_strlit("O");
    reveal_strlit("0");
    assert(BUBBLE_FRAMES@[0]@.len() == 1);
    assert(BUBBLE_FRAMES@[1]@.len() == 1);
    assert(BUBBLE_FRAMES@[2]@.len() == 1);
    assert(BUBBLE_FRAMES@[3]@.len() == 1);
    assert(BUBBLE_FRAMES@[4]@.len() == 1);
    assert(BUBBLE_FRAMES@[5]@.len() == 1);
}

/// What holds of every fish that `Fish::new(max_x, max_y, ..)` makes: it starts at the edge
/// it swims away from, with a drawing of non-zero weight for its direction, speed 1 or 2,
/// a row in `TOP_ROW..max_y - BOTTOM_CLEARANCE` and one of the fish colours.
pub open spec fn fresh_fish(f: Fish, max_x: u16, max_y: u16) -> bool {
    &&& f.x == start_x(f.direction, max_x)
    &&& exists|kind: int|
        0 <= kind < fish_kinds(f.direction).len() && fish_kinds(f.direction)[kind].1 > 0
            && f.body_lines() == fish_body(f.direction, kind)
    &&& SLOWEST <= f.speed < SPEED_BOUND
    &&& TOP_ROW <= f.y < max_y - BOTTOM_CLEARANCE
    &&& fish_palette().contains(f.color)
}

/// Fish equality is an equivalence: it compares positions only.
pub proof fn lemma_fish_eq_is_equivalence(a: Fish, b: Fish, c: Fish)
    ensures
        PartialEqSpec::eq_spec(&a, &b) <==> (a.x == b.x && a.y == b.y),
        PartialEqSpec::eq_spec(&a, &a),
        PartialEqSpec::eq_spec(&a, &b) == PartialEqSpec::eq_spec(&b, &a),
        PartialEqSpec::eq_spec(&a, &b) && PartialEqSpec::eq_spec(&b, &c) ==> PartialEqSpec::eq_spec(&a, &c),
{
}

/// A fish that has left the water stays out on its next move.
pub proof fn lemma_gone_fish_stays_gone(f: Fish, max_x: u16)
    requires
        can_swim(f, max_x),
        !stays(f, max_x),
    ensures
        !stays(swum(f), max_x),
{
}

/// A move changes only a fish's column.
pub proof fn lemma_swim_keeps_course(f: Fish)
    ensures
        swum(f).y == f.y,
        swum(f).body == f.body,
        swum(f).color == f.color,
        swum(f).speed == f.speed,
        swum(f).direction == f.direction,
{
}

/// The fish after `n` moves.
pub open spec fn swum_times(f: Fish, n: nat) -> Fish
    decreases n,
{
    if n == 0 {
        f
    } else {
        swum_times(swum(f), (n - 1) as nat)
    }
}

/// A fish that keeps moving leaves the water: move `n` is the first after which it is out,
/// a left-swimmer's `n` is at most its column and a right-swimmer's at most `max_x + 9`;
/// each move before it takes the fish exactly `speed` cells on, and every move can be made.
pub proof fn lemma_fish_leaves(f: Fish, max_x: u16) -> (n: nat)
    requires
        f.speed >= 1,
        f.direction == Direction::Right ==> f.x + f.speed <= u16::MAX && max_x + 10 + f.speed <= u16::MAX,
    ensures
        f.direction == Direction::Left ==> n <= f.x,
        f.direction == Direction::Right ==> n <= max_x + 9 && (n == 0 || n + f.x <= max_x + 9),
        forall|i: nat| i < n ==> stays(#[trigger] swum_times(f, i), max_x),
        !stays(swum_times(f, n), max_x),
        forall|i: nat| i <= n ==> can_swim(#[trigger] swum_times(f, i), max_x),
        forall|i: nat|
            i <= n ==> (#[trigger] swum_times(f, i)).speed == f.speed && swum_times(f, i).direction
                == f.direction,
        forall|i: nat|
            i < n ==> (#[trigger] swum_times(f, i + 1)).x == if f.direction == Direction::Right {
                swum_times(f, i).x + f.speed
            } else {
                swum_times(f, i).x - f.speed
            },
    decreases
            (if f.direction == Direction::Right {
                max_x + 10 - f.x
            } else {
                f.x as int
            }),
{
    if !stays(f, max_x) {
        assert(swum_times(f, 0) == f);
        0
    } else {
        let g = swum(f);
        let m = lemma_fish_leaves(g, max_x);
        assert forall|i: nat| i <= m + 1 implies #[trigger] swum_times(f, i) == if i == 0 {
            f
        } else {
            swum_times(g, (i - 1) as nat)
        } by {}
        assert forall|i: nat| i < m + 1 implies stays(#[trigger] swum_times(f, i), max_x) by {
            if i > 0 {
                assert(swum_times(g, (i - 1) as nat) == swum_times(f, i));
            }
        }
        assert forall|i: nat| i <= m + 1 implies can_swim(#[trigger] swum_times(f, i), max_x) by {
            if i > 0 {
                assert(swum_times(g, (i - 1) as nat) == swum_times(f, i));
            }
        }
        assert forall|i: nat|
            i <= m + 1 implies (#[trigger] swum_times(f, i)).speed == f.speed && swum_times(f, i).direction
                == f.direction by {
            if i > 0 {
                assert(swum_times(g, (i - 1) as nat) == swum_times(f, i));
            }
        }
        assert forall|i: nat|
            i < m + 1 implies (#[trigger] swum_times(f, i + 1)).x == if f.direction == Direction::Right {
                swum_times(f, i).x + f.speed
            } else {
                swum_times(f, i).x - f.speed
            } by {
            assert(swum_times(g, i) == swum_times(f, i + 1));
            if i > 0 {
                let j = (i - 1) as nat;
                assert(swum_times(g, j) == swum_times(f, i));
                assert(j < m);
                assert(swum_times(g, j + 1).x == if g.direction == Direction::Right {
                    swum_times(g, j).x + g.speed
                } else {
                    swum_times(g, j).x - g.speed
                });
            }
        }
        assert(swum_times(g, m) == swum_times(f, m + 1));
        m + 1
    }
}


/// Over `n` frames a bubble's look advances `n` places round its six looks; it climbs one
/// row a frame, and the frame after it leaves the top row it is back at row `max_y`.
pub proof fn lemma_bubble_rises(b: Bubble, max_y: u16, respawn_x: u16, n: nat)
    requires
        b.frame < 6,
    ensures
        risen_times(b, max_y, respawn_x, n).frame == (b.frame + n) % 6,
        risen_times(b, max_y, respawn_x, n).z_index == b.z_index,
        risen_times(b, max_y, respawn_x, n).color == b.color,
        n <= b.y ==> risen_times(b, max_y, respawn_x, n).y == b.y - n
            && risen_times(b, max_y, respawn_x, n).x == b.x,
        n == b.y + 1 ==> risen_times(b, max_y, respawn_x, n).y == max_y
            && risen_times(b, max_y, respawn_x, n).x == respawn_x,
    decreases n,
{
    if n > 0 {
        lemma_bubble_rises(b, max_y, respawn_x, (n - 1) as nat);
        let p = risen_times(b, max_y, respawn_x, (n - 1) as nat);
        assert((((b.frame + n - 1) % 6) + 1) % 6 == (b.frame + n) % 6) by (nonlinear_arith);
    }
}

/// Swaying twice brings a strand back to the look it had.
pub proof fn lemma_seaweed_sways_back(s: Seaweed)
    requires
        s.frame < 2,
    ensures
        swayed(swayed(s)) == s,
{
}

/// The two looks of a strand, line by line: an empty top line, then five bends that
/// alternate, each bend of the second look turned the other way from the first's.
pub proof fn lemma_seaweed_looks()
    ensures
        seaweed_symbol(0) == seq![Seq::<char>::empty(), seq!['('], seq![')'], seq!['('], seq![')'], seq!['(']],
        seaweed_symbol(1) == seq![Seq::<char>::empty(), seq![')'], seq!['('], seq![')'], seq!['('], seq![')']],
{
    reveal_strlit("\n        (\n        )\n        (\n        )\n        (");
    reveal_strlit("\n        )\n        (\n        )\n        (\n        )");
    let sp: Seq<char> = seq![' ', ' ', ' ', ' ', ' ', ' ', ' ', ' '];
    crate::classic::seaweed::lemma_stalk_lines('(', ')', '(', ')', '(');
    crate::classic::seaweed::lemma_stalk_lines(')', '(', ')', '(', ')');
    let o = sp.push('(');
    let c = sp.push(')');
    assert(SEAWEED_FRAMES@[0]@ =~= crate::classic::seaweed::after_blank_line(seq![o, c, o, c, o])) by {
        reveal_with_fuel(crate::classic::seaweed::after_blank_line, 6);
    }
    assert(SEAWEED_FRAMES@[1]@ =~= crate::classic::seaweed::after_blank_line(seq![c, o, c, o, c])) by {
        reveal_with_fuel(crate::classic::seaweed::after_blank_line, 6);
    }
}

/// Each sway turns every bend of the strand the other way: both looks have an empty top
/// line and five bends, and bend `i` after the sway is `)` where it was `(`, and `(` where
/// it was `)`.
pub proof fn lemma_sway_mirrors(s: Seaweed)
    requires
        s.frame < 2,
    ensures
        ({
            let before = seaweed_symbol(s.frame as int);
            let after = seaweed_symbol(swayed(s).frame as int);
            &&& before.len() == 6 && after.len() == 6
            &&& before[0].len() == 0 && after[0].len() == 0
            &&& forall|i: int|
                1 <= i < 6 ==> (before[i] == seq!['('] || before[i] == seq![')']) && #[trigger] after[i] == if before[i]
                    == seq!['('] {
                    seq![')']
                } else {
                    seq!['(']
                }
        }),
{
    lemma_seaweed_looks();
    assert(seq!['('] != seq![')']) by {
        assert(seq!['('][0] != seq![')'][0]);
    }
}

/// The weights of the drawings for `direction`, in the order of the drawings.
pub fn fish_weights(direction: Direction) -> (w: Vec<u32>)
    ensures
        w@ == fish_kinds(direction).map_values(|k: (&'static str, u32)| k.1),
{
    let mut weights: Vec<u32> = Vec::new();
    let count = match direction {
        Direction::Right => RIGHT_FISH.len(),
        Direction::Left => LEFT_FISH.len(),
    };
    for i in 0..count
        invariant
            count == fish_kinds(direction).len(),
            weights@ == fish_kinds(direction).take(i as int).map_values(
                |k: (&'static str, u32)| k.1,
            ),
    {
        let w = match direction {
            Direction::Right => RIGHT_FISH[i].1,
            Direction::Left => LEFT_FISH[i].1,
        };
        weights.push(w);
        assert(weights@ =~= fish_kinds(direction).take(i + 1).map_values(
            |k: (&'static str, u32)| k.1,
        ));
    }
    assert(weights@ =~= fish_kinds(direction).map_values(|k: (&'static str, u32)| k.1));
    weights
}

impl Fish {
    /// The fish's drawing, line by line.
    pub open spec fn body_lines(&self) -> Seq<Seq<char>> {
        self.body@.map_values(|l: String| l@)
    }

    /// A fish made from the outcome of each draw: its direction, speed, drawing, colour
    /// and row.
    pub fn from_draws(max_x: u16, direction: Direction, speed: u16, kind: usize, color: Color, y: u16) -> (f: Fish)
        requires
            kind < fish_kinds(direction).len(),
        ensures
            f.x == start_x(direction, max_x),
            f.y == y,
            f.body_lines() == fish_body(direction, kind as int),
            f.color == color,
            f.speed == speed,
            f.direction == direction,
    {
        let x = match direction {
            Direction::Right => 0,
            Direction::Left => max_x,
        };
        let raw_body = match direction {
            Direction::Right => RIGHT_FISH[kind].0,
            Direction::Left => LEFT_FISH[kind].0,
        };
        let body = art_lines(raw_body);
        Fish { x, y, body, color, speed, direction }
    }

    /// A new fish entering at one edge: it swims either way, at speed 1 or 2, with a
    /// drawing picked by weight, one of the fish colours, on a row in
    /// `TOP_ROW..max_y - BOTTOM_CLEARANCE`.
    pub fn new(max_x: u16, max_y: u16, rng: &mut ThreadRng) -> (f: Fish)
        requires
            max_y > 6,
        ensures
            fresh_fish(f, max_x, max_y),
    {
        let direction = if random_ratio(rng, RIGHTWARD_CHANCE, CHANCE_OUT_OF) {
            Direction::Right
        } else {
            Direction::Left
        };
        let speed = random_range_u16(rng, SLOWEST, SPEED_BOUND);
        let weights = fish_weights(direction);
        proof {
            reveal_with_fuel(crate::chance::weight_total, 8);
        }
        let choice = pick_weighted(&weights, rng);
        let color = choose_one(FISH_PALETTE.as_slice(), rng).unwrap();
        let y = random_range_u16(rng, TOP_ROW, max_y.saturating_sub(BOTTOM_CLEARANCE));
        Self::from_draws(max_x, direction, speed, choice, color, y)
    }

    /// Moves the fish one step and tells whether it is still in the water.
    pub fn update(&mut self, max_x: u16) -> (alive: bool)
        requires
            can_swim(*old(self), max_x),
        ensures
            *final(self) == swum(*old(self)),
            alive == stays(*old(self), max_x),
    {
        match self.direction {
            Direction::Right => {
                self.x += self.speed;
                self.x < max_x + 10
            },
            Direction::Left => {
                if self.x <= self.speed {
                    false
                } else {
                    self.x -= self.speed;
                    true
                }
            },
        }
    }
}

/// `b2` is what one `update(max_y, max_x, ..)` can make of bubble `b`: it rises a row, or,
/// from the top row, comes back at row `max_y` in a column in `1..max_x`.
pub open spec fn updated(b: Bubble, b2: Bubble, max_y: u16, max_x: u16) -> bool {
    &&& b.y > 0 ==> b2 == risen(b, max_y, b.x)
    &&& b.y == 0 ==> exists|x: u16| 1 <= x < max_x && b2 == risen(b, max_y, x)
}

/// A bubble updated again and again, `trail[i]` after `i` updates: each update moves its
/// look one place on round the six looks, so six updates bring it back, and keeps its
/// layer and its colour; for its first `y` updates it climbs a row at a time in its column, and the
/// update after that brings it back at row `max_y`, in a column in `1..max_x`.
pub proof fn lemma_bubble_trail(trail: Seq<Bubble>, max_y: u16, max_x: u16)
    requires
        trail.len() >= 1,
        trail[0].frame < 6,
        forall|i: int| 0 <= i < trail.len() - 1 ==> updated(#[trigger] trail[i], trail[i + 1], max_y, max_x),
    ensures
        forall|i: int|
            0 <= i < trail.len() ==> (#[trigger] trail[i]).frame == (trail[0].frame + i) % 6
                && trail[i].z_index == trail[0].z_index && trail[i].color == trail[0].color,
        forall|i: int|
            0 <= i < trail.len() && i <= trail[0].y ==> (#[trigger] trail[i]).y == trail[0].y - i
                && trail[i].x == trail[0].x,
        trail[0].y + 1 < trail.len() ==> trail[trail[0].y + 1].y == max_y && 1 <= trail[trail[0].y + 1].x
            < max_x,
    decreases trail.len(),
{
    if trail.len() > 1 {
        let p = trail.drop_last();
        assert forall|i: int| 0 <= i < p.len() - 1 implies updated(#[trigger] p[i], p[i + 1], max_y, max_x) by {
            assert(p[i] == trail[i] && p[i + 1] == trail[i + 1]);
        }
        lemma_bubble_trail(p, max_y, max_x);
        let k = trail.len() - 1;
        let prev = trail[k - 1];
        assert(prev == p[k - 1]);
        assert(updated(trail[k - 1], trail[k], max_y, max_x));
        assert(trail[k].frame == (prev.frame + 1) % 6);
        assert((((trail[0].frame + k - 1) % 6) + 1) % 6 == (trail[0].frame + k) % 6) by (nonlinear_arith);
        assert forall|i: int| 0 <= i < trail.len() implies (#[trigger] trail[i]).frame == (trail[0].frame + i)
            % 6 && trail[i].z_index == trail[0].z_index && trail[i].color == trail[0].color by {
            if i < k {
                assert(trail[i] == p[i]);
            }
        }
        assert forall|i: int| 0 <= i < trail.len() && i <= trail[0].y implies (#[trigger] trail[i]).y
            == trail[0].y - i && trail[i].x == trail[0].x by {
            if i < k {
                assert(trail[i] == p[i]);
            } else {
                assert(prev.y == trail[0].y - (k - 1));
            }
        }
        if trail[0].y + 1 < trail.len() {
            let j = trail[0].y + 1;
            if j < k {
                assert(trail[j] == p[j]);
            } else {
                assert(prev.y == 0);
            }
        }
    }
}

impl Bubble {
    /// A bubble at (`x`, `y`) showing its first look, in one of four colours.
    pub fn new(x: u16, y: u16, z_index: u8, rng: &mut ThreadRng) -> (b: Bubble)
        ensures
            b.x == x,
            b.y == y,
            b.frame == 0,
            b.z_index == z_index,
            bubble_palette().contains(b.color),
    {
        let color = choose_one(BUBBLE_PALETTE.as_slice(), rng).unwrap();
        Bubble { x, y, frame: 0, z_index, color }
    }

    /// One frame of rising, where a bubble leaving the top reappears at `respawn_x`.
    pub fn rise(&mut self, max_y: u16, respawn_x: u16)
        requires
            old(self).frame < usize::MAX,
        ensures
            *final(self) == risen(*old(self), max_y, respawn_x),
    {
        if self.y > 0 {
            self.y -= 1;
        } else {
            self.y = max_y;
            self.x = respawn_x;
        }
        self.frame = (self.frame + 1) % BUBBLE_FRAMES.len();
    }

    /// One frame of rising; a bubble leaving the top reappears at row `max_y`, in a column
    /// drawn from `1..max_x`.
    pub fn update(&mut self, max_y: u16, max_x: u16, rng: &mut ThreadRng)
        requires
            old(self).y == 0 ==> 1 < max_x,
            old(self).frame < usize::MAX,
        ensures
            updated(*old(self), *final(self), max_y, max_x),
    {
        let respawn_x = if self.y > 0 {
            self.x
        } else {
            random_range_u16(rng, 1, max_x)
        };
        self.rise(max_y, respawn_x);
    }

    /// The bubble's current look.
    pub fn current_symbol(&self) -> (s: &'static str)
        requires
            self.frame < BUBBLE_FRAMES@.len(),
        ensures
            s@ == BUBBLE_FRAMES@[self.frame as int]@,
    {
        BUBBLE_FRAMES[self.frame]
    }
}

impl Seaweed {
    /// A strand at (`x`, `y`) in its first look, showing `SHORTEST` to `TALLEST` lines.
    pub fn new(x: u16, y: u16, z_index: u8, rng: &mut ThreadRng) -> (s: Seaweed)
        ensures
            s.x == x,
            s.y == y,
            s.frame == 0,
            s.z_index == z_index,
            SHORTEST <= s.height <= TALLEST,
    {
        Seaweed { x, y, frame: 0, z_index, height: random_range_inclusive_usize(rng, SHORTEST, TALLEST) }
    }

    /// Sways to the other look.
    pub fn update(&mut self)
        requires
            old(self).frame < usize::MAX,
        ensures
            *final(self) == swayed(*old(self)),
    {
        self.frame = (self.frame + 1) % SEAWEED_FRAMES.len();
    }

    /// The lines of the current look, trimmed, top line first.
    pub fn current_symbol(&self) -> (r: Vec<&'static str>)
        requires
            self.frame < SEAWEED_FRAMES@.len(),
        ensures
            str_views(r@) == seaweed_symbol(self.frame as int),
    {
        let ls = lines(SEAWEED_FRAMES[self.frame]);
        let mut r: Vec<&'static str> = Vec::new();
        for i in 0..ls.len()
            invariant
                self.frame < SEAWEED_FRAMES@.len(),
                str_views(ls@) == text_lines(SEAWEED_FRAMES@[self.frame as int]@),
                str_views(r@) == str_views(ls@).take(i as int).map_values(|l: Seq<char>| trim_chars(l)),
        {
            let t = trim(ls[i]);
            let ghost before = r@;
            r.push(t);
            assert(str_views(ls@)[i as int] == ls@[i as int]@);
            assert(str_views(ls@).take(i + 1) =~= str_views(ls@).take(i as int).push(ls@[i as int]@));
            assert(str_views(r@) =~= str_views(before).push(t@));
            assert(str_views(r@) =~= str_views(ls@).take(i + 1).map_values(|l: Seq<char>| trim_chars(l)));
        }
        assert(str_views(ls@).take(ls@.len() as int) =~= str_views(ls@));
        r
    }
}

} // verus!
