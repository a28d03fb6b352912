//! The fish of the running aquarium, with their wider choice of drawings.
use vstd::prelude::*;
use vstd::std_specs::cmp::{PartialEqSpec, PartialEqSpecImpl};

use rand::rngs::ThreadRng;

use crate::chance::{choose_one, pick_weighted, random_range_u16, random_ratio};
use crate::color::Color;
use crate::text::{art_lines, text_lines, trim_end_chars};

verus! {

/// Which way a fish swims.
#[derive(Clone, Copy, Debug, PartialEq, Eq, Structural)]
pub enum Direction {
    Left,
    Right,
}

/// A fish: where its drawing starts, the drawing, line by line, and how fast it swims.
#[derive(Clone)]
pub struct Fish {
    pub x: u16,
    pub y: u16,
    pub body: Vec<String>,
    pub color: Color,
    pub speed: u16,
    pub direction: Direction,
}

/// Two fish are equal when they are at the same place, whatever they look like.
impl PartialEq for Fish {
    fn eq(&self, other: &Self) -> (r: bool) {
        self.x == other.x && self.y == other.y
    }
}

impl PartialEqSpecImpl for Fish {
    open spec fn obeys_eq_spec() -> bool {
        true
    }

    open spec fn eq_spec(&self, other: &Self) -> bool {
        self.x == other.x && self.y == other.y
    }
}

/// The drawings of right-swimming fish, each with the weight of its chance to be picked.
pub const RIGHT_FISH: [(&'static str, u32); 6] = [
    ("><((°>", 3),
    ("><>", 3),
    (">º)))>", 3),
    (r#"
  \\
 / \\
>=_('>
 \\_/
   /"#, 1),
    (r#"
        ,--,_
__    _\\.---'-.
\\ '.-"     // o\\
/_.'-.-_   \\\\  /
        `"--(/"#, 1),
    (r#"
>() >()   >()   >()
 >() >()   >()    >()
    >()  >() >() >() >()
>()   >()     >()   >()"#, 1),
];

/// The drawings of left-swimming fish, each with the weight of its chance to be picked.
pub const LEFT_FISH: [(&'static str, u32); 7] = [
    ("<°))><", 10),
    ("<><", 10),
    ("<(((º<", 10),
    (r#"
  /
 / \\
<')_=<
 \\_/
  \\"#, 10),
    (r#"
    _,--,
 .-'---./___    __
/o \\\\     "-.' /
\\  //    _.-'._\\
  `"\\)--"#, 1),
    (r#"
()< ()<   ()<   ()<
 ()< ()<   ()<    ()<
   ()<  ()< ()< ()< ()<
()<   ()<     ()<   ()<"#, 10),
    (r#"
                          A       ;
                |   ,--,-/ \---,-/|  ,
               _|\,'. /|      /|   `/|-.
           \`.'    /|      ,            `;.
          ,'\   A     A         A   A _ /| `.;
        ,/  _              A       _  / _   /|  ;
       /\  / \   ,  ,           A  /    /     `/|
      /_| | _ \         ,     ,             ,/  \
     // | |/ `.\  ,-      ,       ,   ,/ ,/      \/
     / @| |@  / /'   \  \      ,              >  /|    ,--.
    |\_/   \_/ /      |  |           ,  ,/        \  ./' __:..
    |  __ __  |       |  | .--.  ,         >  >   |-'   /     `
  ,/| /  '  \ |       |  |     \      ,           |    /
 /  |<--.__,->|       |  | .    `.        >  >    /   (
/_,' \\  ^  /  \     /  /   `.    >--            /^\   |
      \\___/    \   /  /      \__'     \   \   \/   \  |
       `.   |/          ,  ,                  /`\    \  )
         \  '  |/    ,       V    \          /        `-\
          `|/  '  V      V           \    \.'            \_
           '`-.       V       V        \./'\
               `|/-.      \ /   \ /,---`\
                /   `._____V_____V'
                           '     '"#, 1),
];

/// The drawings (with their weights) that a fish swimming in `direction` may have.
pub open spec fn fish_kinds(direction: Direction) -> Seq<(&'static str, u32)> {
    match direction {
        Direction::Right => RIGHT_FISH@,
        Direction::Left => LEFT_FISH@,
    }
}

/// The lines of drawing `kind` for `direction`, without trailing white space.
pub open spec fn fish_body(direction: Direction, kind: int) -> Seq<Seq<char>> {
    text_lines(fish_kinds(direction)[kind].0@).map_values(|l: Seq<char>| trim_end_chars(l))
}

/// Where a new fish starts: at the left edge when it swims right, at `max_x` otherwise.
pub open spec fn start_x(direction: Direction, max_x: u16) -> u16 {
    match direction {
        Direction::Right => 0,
        Direction::Left => max_x,
    }
}

/// The colours a new fish is drawn from, each with the same chance.
pub const FISH_PALETTE: [Color; 4] = [Color::Cyan, Color::LightMagenta, Color::Yellow, Color::LightBlue];

/// A new fish swims right with chance `RIGHTWARD_CHANCE` in `CHANCE_OUT_OF`, else left.
pub const RIGHTWARD_CHANCE: u32 = 1;

/// See `RIGHTWARD_CHANCE`.
pub const CHANCE_OUT_OF: u32 = 2;

/// The slowest speed of a new fish.
pub const SLOWEST: u16 = 1;

/// The speed just above the fastest of a new fish: speeds are drawn from `SLOWEST..SPEED_BOUND`.
pub const SPEED_BOUND: u16 = 3;

/// The highest row a new fish may swim on.
pub const TOP_ROW: u16 = 2;

/// How many of the bottom rows up to `max_y` a new fish keeps clear of: rows are drawn from
/// `TOP_ROW..max_y - BOTTOM_CLEARANCE`.
pub const BOTTOM_CLEARANCE: u16 = 4;

/// The colours a fish may have.
pub open spec fn fish_palette() -> Seq<Color> {
    FISH_PALETTE@
}

/// The fish after one move: a right-swimmer goes `speed` cells right; a left-swimmer goes
/// `speed` cells left unless that would take it to or past the left edge, where it stays.
pub open spec fn swum(f: Fish) -> Fish {
    match f.direction {
        Direction::Right => Fish { x: (f.x + f.speed) as u16, ..f },
        Direction::Left => if f.x <= f.speed {
            f
        } else {
            Fish { x: (f.x - f.speed) as u16, ..f }
        },
    }
}

/// Whether the fish is still in the water after its move: a right-swimmer until it is ten
/// cells past `max_x`, a left-swimmer until it reaches the left edge.
pub open spec fn stays(f: Fish, max_x: u16) -> bool {
    match f.direction {
        Direction::Right => f.x + f.speed < max_x + 10,
        Direction::Left => f.x > f.speed,
    }
}

/// A right-swimmer's move, and the edge it is compared with, fit in a `u16`.
pub open spec fn can_swim(f: Fish, max_x: u16) -> bool {
    f.direction == Direction::Right ==> f.x + f.speed <= u16::MAX && max_x + 10 <= u16::MAX
}

/// What holds of every fish that `Fish::new(max_x, max_y, ..)` makes: it starts at the edge
/// it swims away from, with a drawing of non-zero weight for its direction, speed 1 or 2,
/// a row in `TOP_ROW..max_y - BOTTOM_CLEARANCE` and one of the fish colours.
pub open spec fn fresh_fish(f: Fish, max_x: u16, max_y: u16) -> bool {
    &&& f.x == start_x(f.direction, max_x)
    &&& exists|kind: int|
        0 <= kind < fish_kinds(f.direction).len() && fish_kinds(f.direction)[kind].1 > 0
            && f.body_lines() == fish_body(f.direction, kind)
    &&& SLOWEST <= f.speed < SPEED_BOUND
    &&& TOP_ROW <= f.y < max_y - BOTTOM_CLEARANCE
    &&& fish_palette().contains(f.color)
}

/// Fish equality is an equivalence: it compares positions only.
pub proof fn lemma_fish_eq_is_equivalence(a: Fish, b: Fish, c: Fish)
    ensures
        PartialEqSpec::eq_spec(&a, &b) <==> (a.x == b.x && a.y == b.y),
        PartialEqSpec::eq_spec(&a, &a),
        PartialEqSpec::eq_spec(&a, &b) == PartialEqSpec::eq_spec(&b, &a),
        PartialEqSpec::eq_spec(&a, &b) && PartialEqSpec::eq_spec(&b, &c) ==> PartialEqSpec::eq_spec(&a, &c),
{
}

/// A fish that has left the water stays out on its next move.
pub proof fn lemma_gone_fish_stays_gone(f: Fish, max_x: u16)
    requires
        can_swim(f, max_x),
        !stays(f, max_x),
    ensures
        !stays(swum(f), max_x),
{
}

/// A move changes only a fish's column.
pub proof fn lemma_swim_keeps_course(f: Fish)
    ensures
        swum(f).y == f.y,
        swum(f).body == f.body,
        swum(f).color == f.color,
        swum(f).speed == f.speed,
        swum(f).direction == f.direction,
{
}

/// The fish after `n` moves.
pub open spec fn swum_times(f: Fish, n: nat) -> Fish
    decreases n,
{
    if n == 0 {
        f
    } else {
        swum_times(swum(f), (n - 1) as nat)
    }
}

/// A fish that keeps moving leaves the water: move `n` is the first after which it is out,
/// a left-swimmer's `n` is at most its column and a right-swimmer's at most `max_x + 9`;
/// each move before it takes the fish exactly `speed` cells on, and every move can be made.
pub proof fn lemma_fish_leaves(f: Fish, max_x: u16) -> (n: nat)
    requires
        f.speed >= 1,
        f.direction == Direction::Right ==> f.x + f.speed <= u16::MAX && max_x + 10 + f.speed <= u16::MAX,
    ensures
        f.direction == Direction::Left ==> n <= f.x,
        f.direction == Direction::Right ==> n <= max_x + 9 && (n == 0 || n + f.x <= max_x + 9),
        forall|i: nat| i < n ==> stays(#[trigger] swum_times(f, i), max_x),
        !stays(swum_times(f, n), max_x),
        forall|i: nat| i <= n ==> can_swim(#[trigger] swum_times(f, i), max_x),
        forall|i: nat|
            i <= n ==> (#[trigger] swum_times(f, i)).speed == f.speed && swum_times(f, i).direction
                == f.direction,
        forall|i: nat|
            i < n ==> (#[trigger] swum_times(f, i + 1)).x == if f.direction == Direction::Right {
                swum_times(f, i).x + f.speed
            } else {
                swum_times(f, i).x - f.speed
            },
    decreases
            (if f.direction == Direction::Right {
                max_x + 10 - f.x
            } else {
                f.x as int
            }),
{
    if !stays(f, max_x) {
        assert(swum_times(f, 0) == f);
        0
    } else {
        let g = swum(f);
        let m = lemma_fish_leaves(g, max_x);
        assert forall|i: nat| i <= m + 1 implies #[trigger] swum_times(f, i) == if i == 0 {
            f
        } else {
            swum_times(g, (i - 1) as nat)
        } by {}
        assert forall|i: nat| i < m + 1 implies stays(#[trigger] swum_times(f, i), max_x) by {
            if i > 0 {
                assert(swum_times(g, (i - 1) as nat) == swum_times(f, i));
            }
        }
        assert forall|i: nat| i <= m + 1 implies can_swim(#[trigger] swum_times(f, i), max_x) by {
            if i > 0 {
                assert(swum_times(g, (i - 1) as nat) == swum_times(f, i));
            }
        }
        assert forall|i: nat|
            i <= m + 1 implies (#[trigger] swum_times(f, i)).speed == f.speed && swum_times(f, i).direction
                == f.direction by {
            if i > 0 {
                assert(swum_times(g, (i - 1) as nat) == swum_times(f, i));
            }
        }
        assert forall|i: nat|
            i < m + 1 implies (#[trigger] swum_times(f, i + 1)).x == if f.direction == Direction::Right {
                swum_times(f, i).x + f.speed
            } else {
                swum_times(f, i).x - f.speed
            } by {
            assert(swum_times(g, i) == swum_times(f, i + 1));
            if i > 0 {
                let j = (i - 1) as nat;
                assert(swum_times(g, j) == swum_times(f, i));
                assert(j < m);
                assert(swum_times(g, j + 1).x == if g.direction == Direction::Right {
                    swum_times(g, j).x + g.speed
                } else {
                    swum_times(g, j).x - g.speed
                });
            }
        }
        assert(swum_times(g, m) == swum_times(f, m + 1));
        m + 1
    }
}

/// The weights of the drawings for `direction`, in the order of the drawings.
pub fn fish_weights(direction: Direction) -> (w: Vec<u32>)
    ensures
        w@ == fish_kinds(direction).map_values(|k: (&'static str, u32)| k.1),
{
    let mut weights: Vec<u32> = Vec::new();
    let count = match direction {
        Direction::Right => RIGHT_FISH.len(),
        Direction::Left => LEFT_FISH.len(),
    };
    for i in 0..count
        invariant
            count == fish_kinds(direction).len(),
            weights@ == fish_kinds(direction).take(i as int).map_values(
                |k: (&'static str, u32)| k.1,
            ),
    {
        let w = match direction {
            Direction::Right => RIGHT_FISH[i].1,
            Direction::Left => LEFT_FISH[i].1,
        };
        weights.push(w);
        assert(weights@ =~= fish_kinds(direction).take(i + 1).map_values(
            |k: (&'static str, u32)| k.1,
        ));
    }
    assert(weights@ =~= fish_kinds(direction).map_values(|k: (&'static str, u32)| k.1));
    weights
}

/// The length of the longest of the lines `ls`, 0 when there is none.
pub open spec fn longest_line(ls: Seq<Seq<char>>) -> nat
    decreases ls.len(),
{
    if ls.len() == 0 {
        0
    } else {
        let w = ls.last().len();
        let p = longest_line(ls.drop_last());
        if w > p {
            w
        } else {
            p
        }
    }
}

/// The longest line of the first `n` drawings for `direction`.
pub open spec fn widest_body_upto(direction: Direction, n: int) -> nat
    decreases n,
{
    if n <= 0 {
        0
    } else {
        let w = longest_line(fish_body(direction, n - 1));
        let p = widest_body_upto(direction, n - 1);
        if w > p {
            w
        } else {
            p
        }
    }
}

/// The longest line of any fish drawing, of either direction.
pub open spec fn widest_fish_line() -> nat {
    let r = widest_body_upto(Direction::Right, RIGHT_FISH@.len() as int);
    let l = widest_body_upto(Direction::Left, LEFT_FISH@.len() as int);
    if r > l {
        r
    } else {
        l
    }
}

proof fn lemma_longest_line(ls: Seq<Seq<char>>, k: int)
    requires
        0 <= k < ls.len(),
    ensures
        ls[k].len() <= longest_line(ls),
    decreases ls.len(),
{
    if k < ls.len() - 1 {
        lemma_longest_line(ls.drop_last(), k);
    }
}

proof fn lemma_widest_body_upto(direction: Direction, k: int, n: int)
    requires
        0 <= k < n,
    ensures
        longest_line(fish_body(direction, k)) <= widest_body_upto(direction, n),
    decreases n,
{
    if k < n - 1 {
        lemma_widest_body_upto(direction, k, n - 1);
    }
}

/// No line of any drawing is longer than `widest_fish_line()`.
pub proof fn lemma_body_lines_bounded(direction: Direction, kind: int)
    requires
        0 <= kind < fish_kinds(direction).len(),
    ensures
        forall|dy: int|
            0 <= dy < fish_body(direction, kind).len() ==> #[trigger] fish_body(direction, kind)[dy].len()
                <= widest_fish_line(),
{
    lemma_widest_body_upto(direction, kind, fish_kinds(direction).len() as int);
    assert forall|dy: int| 0 <= dy < fish_body(direction, kind).len() implies #[trigger] fish_body(
        direction,
        kind,
    )[dy].len() <= widest_fish_line() by {
        lemma_longest_line(fish_body(direction, kind), dy);
    }
}

/// The length of the longest of the lines `ls`, in characters.
fn longest_line_len(ls: &Vec<String>) -> (w: usize)
    ensures
        w == longest_line(ls@.map_values(|l: String| l@)),
{
    let ghost v = ls@.map_values(|l: String| l@);
    let mut w: usize = 0;
    for i in 0..ls.len()
        invariant
            v == ls@.map_values(|l: String| l@),
            w == longest_line(v.take(i as int)),
    {
        let n = ls[i].as_str().unicode_len();
        assert(n == v[i as int].len());
        assert(v.take(i + 1).drop_last() =~= v.take(i as int));
        if n > w {
            w = n;
        }
    }
    assert(v.take(v.len() as int) =~= v);
    w
}

/// The longest line of any fish drawing, of either direction, in characters.
pub fn widest_fish_line_len() -> (w: usize)
    ensures
        w == widest_fish_line(),
{
    let mut r: usize = 0;
    for i in 0..RIGHT_FISH.len()
        invariant
            r == widest_body_upto(Direction::Right, i as int),
    {
        let body = art_lines(RIGHT_FISH[i].0);
        let n = longest_line_len(&body);
        assert(body@.map_values(|l: String| l@) == fish_body(Direction::Right, i as int));
        if n > r {
            r = n;
        }
    }
    let mut l: usize = 0;
    for i in 0..LEFT_FISH.len()
        invariant
            l == widest_body_upto(Direction::Left, i as int),
    {
        let body = art_lines(LEFT_FISH[i].0);
        let n = longest_line_len(&body);
        assert(body@.map_values(|l: String| l@) == fish_body(Direction::Left, i as int));
        if n > l {
            l = n;
        }
    }
    if r > l {
        r
    } else {
        l
    }
}

impl Fish {
    /// The fish's drawing, line by line.
    pub open spec fn body_lines(&self) -> Seq<Seq<char>> {
        self.body@.map_values(|l: String| l@)
    }

    /// A fish made from the outcome of each draw: its direction, speed, drawing, colour
    /// and row.
    pub fn from_draws(
        max_x: u16,
        direction: Direction,
        speed: u16,
        kind: usize,
        color: Color,
        y: u16,
    ) -> (f: Fish)
        requires
            kind < fish_kinds(direction).len(),
        ensures
            f.x == start_x(direction, max_x),
            f.y == y,
            f.body_lines() == fish_body(direction, kind as int),
            f.color == color,
            f.speed == speed,
            f.direction == direction,
    {
        let x = match direction {
            Direction::Right => 0,
            Direction::Left => max_x,
        };
        let raw_body = match direction {
            Direction::Right => RIGHT_FISH[kind].0,
            Direction::Left => LEFT_FISH[kind].0,
        };
        let body = art_lines(raw_body);
        Fish { x, y, body, color, speed, direction }
    }

    /// A new fish entering at one edge: it swims either way, at speed 1 or 2, with a
    /// drawing picked by weight, one of the fish colours, on a row in
    /// `TOP_ROW..max_y - BOTTOM_CLEARANCE`.
    pub fn new(max_x: u16, max_y: u16, rng: &mut ThreadRng) -> (f: Fish)
        requires
            max_y > 6,
        ensures
            fresh_fish(f, max_x, max_y),
    {
        let direction = if random_ratio(rng, RIGHTWARD_CHANCE, CHANCE_OUT_OF) {
            Direction::Right
        } else {
            Direction::Left
        };
        let speed = random_range_u16(rng, SLOWEST, SPEED_BOUND);
        let weights = fish_weights(direction);
        proof {
            reveal_with_fuel(crate::chance::weight_total, 8);
        }
        let choice = pick_weighted(&weights, rng);
        let color = choose_one(FISH_PALETTE.as_slice(), rng).unwrap();
        let y = random_range_u16(rng, TOP_ROW, max_y.saturating_sub(BOTTOM_CLEARANCE));
        Self::from_draws(max_x, direction, speed, choice, color, y)
    }

    /// Moves the fish one step and tells whether it is still in the water.
    pub fn update(&mut self, max_x: u16) -> (alive: bool)
        requires
            can_swim(*old(self), max_x),
        ensures
            *final(self) == swum(*old(self)),
            alive == stays(*old(self), max_x),
    {
        match self.direction {
            Direction::Right => {
                self.x += self.speed;
                match self.direction {
                    Direction::Right => self.x < max_x + 10,
                    Direction::Left => self.x > 0u16.saturating_sub(10),
                }
            },
            Direction::Left => {
                if self.x <= self.speed {
                    false
                } else {
                    self.x -= self.speed;
                    true
                }
            },
        }
    }
}

} // verus!
