//! The seaweed of the running aquarium, and its sea floor of weed.
use vstd::prelude::*;

use rand::rngs::ThreadRng;

use crate::canvas::{cells, painted, put, Cell};
use crate::chance::random_range_inclusive_usize;
use crate::color::Color;
use crate::text::{
    is_white_space, lemma_segments_line, lines, segments, str_views, strip_cr, text_lines, trim, trim_chars,
    trim_end_chars, trim_start_chars,
};

verus! {

broadcast use vstd::string::group_string_axioms;

/// The two looks of a strand of seaweed.
pub const SEAWEED_FRAMES: [&'static str; 2] = [
        "
        (
        )
        (
        )
        (",
        "
        )
        (
        )
        (
        )",
];

/// The characters of the weed lines, repeated along the sea floor.
pub const WEED: [char; 5] = ['~', '≡', '≡', '~', '≡'];

/// The fewest lines of a new strand that show.
pub const SHORTEST: usize = 2;

/// The most lines of a new strand that show: heights are drawn from `SHORTEST..=TALLEST`.
pub const TALLEST: usize = 6;

/// A strand of seaweed swaying between two looks; `height` is how many of its lines show.
#[derive(Clone, Copy)]
pub struct Seaweed {
    pub x: u16,
    pub y: u16,
    pub frame: usize,
    pub z_index: u8,
    pub height: usize,
}

/// The lines of seaweed look `frame`, trimmed of white space on both sides.
pub open spec fn seaweed_symbol(frame: int) -> Seq<Seq<char>> {
    text_lines(SEAWEED_FRAMES@[frame]@).map_values(|l: Seq<char>| trim_chars(l))
}

/// The strand after one frame: it sways to its other look, and nothing else changes.
pub open spec fn swayed(s: Seaweed) -> Seaweed {
    Seaweed { frame: ((s.frame + 1) % 2) as usize, ..s }
}

/// Swaying twice brings a strand back to the look it had.
pub proof fn lemma_seaweed_sways_back(s: Seaweed)
    requires
        s.frame < 2,
    ensures
        swayed(swayed(s)) == s,
{
}

/// The white space that `t` starts with is cut by `trim_start_chars`.
proof fn lemma_trim_start_blank(t: Seq<char>, k: int)
    requires
        0 <= k <= t.len(),
        forall|i: int| 0 <= i < k ==> is_white_space(#[trigger] t[i]),
    ensures
        trim_start_chars(t) == trim_start_chars(t.subrange(k, t.len() as int)),
    decreases k,
{
    if k == 0 {
        assert(t.subrange(0, t.len() as int) =~= t);
    } else {
        lemma_trim_start_blank(t, k - 1);
        let u = t.subrange(k - 1, t.len() as int);
        assert(u[0] == t[k - 1]);
        assert(u.drop_first() =~= t.subrange(k, t.len() as int));
    }
}

/// Eight spaces, then `c`, trimmed, is `c` alone.
proof fn lemma_trim_indented(c: char)
    requires
        c == '(' || c == ')',
    ensures
        trim_chars(seq![' ', ' ', ' ', ' ', ' ', ' ', ' ', ' '].push(c)) == seq![c],
{
    let t = seq![' ', ' ', ' ', ' ', ' ', ' ', ' ', ' '].push(c);
    assert(!is_white_space(c));
    assert(is_white_space(' '));
    assert(trim_end_chars(t) == t);
    lemma_trim_start_blank(t, 8);
    assert(t.subrange(8, 9) =~= seq![c]);
}

/// An empty line, then the lines `ls`: the text with a line ending before each line of `ls`.
pub(crate) open spec fn after_blank_line(ls: Seq<Seq<char>>) -> Seq<char>
    decreases ls.len(),
{
    if ls.len() == 0 {
        Seq::empty()
    } else {
        after_blank_line(ls.drop_last()).push('\n') + ls.last()
    }
}

/// The pieces of `after_blank_line(ls)` are an empty piece, then the lines of `ls`.
proof fn lemma_after_blank_line_segments(ls: Seq<Seq<char>>)
    requires
        forall|k: int, i: int| 0 <= k < ls.len() && 0 <= i < ls[k].len() ==> #[trigger] ls[k][i] != '\n',
    ensures
        segments(after_blank_line(ls)) == seq![Seq::<char>::empty()] + ls,
    decreases ls.len(),
{
    if ls.len() == 0 {
        assert(seq![Seq::<char>::empty()] + ls =~= seq![Seq::<char>::empty()]);
    } else {
        let p = ls.drop_last();
        lemma_after_blank_line_segments(p);
        let q = ls.last();
        assert forall|i: int| 0 <= i < q.len() implies q[i] != '\n' by {
            assert(q[i] == ls[ls.len() - 1][i]);
        }
        lemma_segments_line(after_blank_line(p), q);
        assert(seq![Seq::<char>::empty()] + ls =~= (seq![Seq::<char>::empty()] + p).push(q));
    }
}

/// The lines of an empty line followed by five indented bends `c0`..`c4`, trimmed.
#[verifier::rlimit(30)]
pub(crate) proof fn lemma_stalk_lines(c0: char, c1: char, c2: char, c3: char, c4: char)
    requires
        c0 == '(' || c0 == ')',
        c1 == '(' || c1 == ')',
        c2 == '(' || c2 == ')',
        c3 == '(' || c3 == ')',
        c4 == '(' || c4 == ')',
    ensures
        ({
            let sp: Seq<char> = seq![' ', ' ', ' ', ' ', ' ', ' ', ' ', ' '];
            let text = after_blank_line(seq![sp.push(c0), sp.push(c1), sp.push(c2), sp.push(c3), sp.push(c4)]);
            text_lines(text).map_values(|l: Seq<char>| trim_chars(l)) == seq![
                Seq::<char>::empty(),
                seq![c0],
                seq![c1],
                seq![c2],
                seq![c3],
                seq![c4],
            ]
        }),
{
    let sp: Seq<char> = seq![' ', ' ', ' ', ' ', ' ', ' ', ' ', ' '];
    let e = Seq::<char>::empty();
    let ls = seq![sp.push(c0), sp.push(c1), sp.push(c2), sp.push(c3), sp.push(c4)];
    assert forall|k: int, i: int| 0 <= k < ls.len() && 0 <= i < ls[k].len() implies #[trigger] ls[k][i] != '\n' by {
        assert(ls[k].len() == 9);
        assert(i < 8 ==> ls[k][i] == ' ');
    }
    lemma_after_blank_line_segments(ls);
    let text = after_blank_line(ls);
    let segs = segments(text);
    assert(segs =~= seq![e] + ls);
    assert(segs.last() == ls[4]);
    assert(segs.drop_last().map_values(|l: Seq<char>| strip_cr(l)) =~= seq![e] + ls.drop_last());
    assert(text_lines(text) =~= seq![e] + ls);
    lemma_trim_indented(c0);
    lemma_trim_indented(c1);
    lemma_trim_indented(c2);
    lemma_trim_indented(c3);
    lemma_trim_indented(c4);
    assert(trim_chars(e) == e);
    assert(text_lines(text).map_values(|l: Seq<char>| trim_chars(l)) =~= seq![
        e,
        seq![c0],
        seq![c1],
        seq![c2],
        seq![c3],
        seq![c4],
    ]);
}

/// The two looks of a strand, line by line: an empty top line, then five bends that
/// alternate, each bend of the second look turned the other way from the first's.
pub proof fn lemma_seaweed_looks()
    ensures
        seaweed_symbol(0) == seq![Seq::<char>::empty(), seq!['('], seq![')'], seq!['('], seq![')'], seq!['(']],
        seaweed_symbol(1) == seq![Seq::<char>::empty(), seq![')'], seq!['('], seq![')'], seq!['('], seq![')']],
{
    reveal_strlit("\n        (\n        )\n        (\n        )\n        (");
    reveal_strlit("\n        )\n        (\n        )\n        (\n        )");
    let sp: Seq<char> = seq![' ', ' ', ' ', ' ', ' ', ' ', ' ', ' '];
    lemma_stalk_lines('(', ')', '(', ')', '(');
    lemma_stalk_lines(')', '(', ')', '(', ')');
    let o = sp.push('(');
    let c = sp.push(')');
    assert(SEAWEED_FRAMES@[0]@ =~= after_blank_line(seq![o, c, o, c, o])) by {
        reveal_with_fuel(after_blank_line, 6);
    }
    assert(SEAWEED_FRAMES@[1]@ =~= after_blank_line(seq![c, o, c, o, c])) by {
        reveal_with_fuel(after_blank_line, 6);
    }
}

/// Each sway turns every bend of the strand the other way: both looks have an empty top
/// line and five bends, and bend `i` after the sway is `)` where it was `(`, and `(` where
/// it was `)`.
pub proof fn lemma_sway_mirrors(s: Seaweed)
    requires
        s.frame < 2,
    ensures
        ({
            let before = seaweed_symbol(s.frame as int);
            let after = seaweed_symbol(swayed(s).frame as int);
            &&& before.len() == 6 && after.len() == 6
            &&& before[0].len() == 0 && after[0].len() == 0
            &&& forall|i: int|
                1 <= i < 6 ==> (before[i] == seq!['('] || before[i] == seq![')']) && #[trigger] after[i] == if before[i]
                    == seq!['('] {
                    seq![')']
                } else {
                    seq!['(']
                }
        }),
{
    lemma_seaweed_looks();
    assert(seq!['('] != seq![')']) by {
        assert(seq!['('][0] != seq![')'][0]);
    }
}

impl Seaweed {
    /// A strand at (`x`, `y`) in its first look, showing `SHORTEST` to `TALLEST` lines.
    pub fn new(x: u16, y: u16, z_index: u8, rng: &mut ThreadRng) -> (s: Seaweed)
        ensures
            s.x == x,
            s.y == y,
            s.frame == 0,
            s.z_index == z_index,
            SHORTEST <= s.height <= TALLEST,
    {
        Self { x, y, frame: 0, z_index, height: random_range_inclusive_usize(rng, SHORTEST, TALLEST) }
    }

    /// Sways to the other look.
    pub fn update(&mut self)
        requires
            old(self).frame < usize::MAX,
        ensures
            *final(self) == swayed(*old(self)),
    {
        self.frame = (self.frame + 1) % SEAWEED_FRAMES.len();
    }

    /// The lines of the current look, trimmed, top line first.
    pub fn current_symbol(&self) -> (r: Vec<&'static str>)
        requires
            self.frame < SEAWEED_FRAMES@.len(),
        ensures
            str_views(r@) == seaweed_symbol(self.frame as int),
    {
        let ls = lines(SEAWEED_FRAMES[self.frame]);
        let mut r: Vec<&'static str> = Vec::new();
        for i in 0..ls.len()
            invariant
                self.frame < SEAWEED_FRAMES@.len(),
                str_views(ls@) == text_lines(SEAWEED_FRAMES@[self.frame as int]@),
                str_views(r@) == str_views(ls@).take(i as int).map_values(
                    |l: Seq<char>| trim_chars(l),
                ),
        {
            let t = trim(ls[i]);
            let ghost before = r@;
            r.push(t);
            assert(str_views(ls@)[i as int] == ls@[i as int]@);
            assert(str_views(ls@).take(i + 1) =~= str_views(ls@).take(i as int).push(
                ls@[i as int]@,
            ));
            assert(str_views(r@) =~= str_views(before).push(t@));
            assert(str_views(r@) =~= str_views(ls@).take(i + 1).map_values(
                |l: Seq<char>| trim_chars(l),
            ));
        }
        assert(str_views(ls@).take(ls@.len() as int) =~= str_views(ls@));
        r
    }
}

/// `grid` with the sea floor painted green: four weed lines ending on row `rows - 1`,
/// across the first `cols` columns; only the lines before `k` (counted from the bottom)
/// and, of line `k`, the columns before `m`.
pub open spec fn weed_painted_upto(
    grid: Seq<Seq<Cell>>,
    cols: u16,
    rows: u16,
    k: int,
    m: int,
) -> Seq<Seq<Cell>> {
    Seq::new(
        grid.len(),
        |r: int|
            Seq::new(
                grid[r].len(),
                |c: int|
                    {
                        let i = rows - 1 - r;
                        if 0 <= i < 4 && c < cols && (i < k || (i == k && c < m)) {
                            painted(WEED@[c % 5], Color::Green)
                        } else {
                            grid[r][c]
                        }
                    },
            ),
    )
}

/// `grid` with the whole sea floor of weed painted.
pub open spec fn weed_painted(grid: Seq<Seq<Cell>>, cols: u16, rows: u16) -> Seq<Seq<Cell>> {
    weed_painted_upto(grid, cols, rows, 4, 0)
}

/// The sea floor of weed covers the four bottom rows across the first `cols` columns, in
/// green, repeating `~≡≡~≡` from the left edge; every other cell keeps what it had.
pub proof fn lemma_weed_cell(grid: Seq<Seq<Cell>>, cols: u16, rows: u16, r: int, c: int)
    requires
        0 <= r < grid.len(),
        0 <= c < grid[r].len(),
    ensures
        ({
            let g = weed_painted(grid, cols, rows);
            &&& (rows - 4 <= r < rows && c < cols) ==> g[r][c] == (Cell {
                ch: if c % 5 == 0 || c % 5 == 3 {
                    '~'
                } else {
                    '≡'
                },
                fg: Some(Color::Green),
            })
            &&& !(rows - 4 <= r < rows && c < cols) ==> g[r][c] == grid[r][c]
        }),
{
    assert(WEED@[0] == '~' && WEED@[1] == '≡' && WEED@[2] == '≡' && WEED@[3] == '~' && WEED@[4] == '≡');
}

/// Painting the sea floor keeps the picture's shape.
pub proof fn lemma_weed_painted_shape(grid: Seq<Seq<Cell>>, cols: u16, rows: u16)
    ensures
        crate::canvas::same_shape(weed_painted(grid, cols, rows), grid),
{
}

/// Paints the sea floor: four green lines of weed at the bottom of the picture.
pub fn draw_seaweed(lines: &mut Vec<Vec<Cell>>, cols: u16, rows: u16)
    requires
        rows >= 4,
    ensures
        cells(final(lines)@) == weed_painted(cells(old(lines)@), cols, rows),
{
    let ghost g0 = cells(lines@);
    let seaweed_height: u16 = 4;
    assert forall|r: int| 0 <= r < g0.len() implies #[trigger] g0[r] =~= weed_painted_upto(
        g0,
        cols,
        rows,
        0,
        0,
    )[r] by {}
    assert(g0 =~= weed_painted_upto(g0, cols, rows, 0, 0));
    for i in 0..seaweed_height
        invariant
            rows >= 4,
            seaweed_height == 4,
            g0 == cells(old(lines)@),
            lines@.len() == g0.len(),
            cells(lines@) == weed_painted_upto(g0, cols, rows, i as int, 0),
    {
        let y = rows - 1 - i;
        if (y as usize) < lines.len() {
            let mut dx: usize = 0;
            while dx < cols as usize
                invariant
                    dx <= cols,
                    (y as usize) < lines@.len(),
                    y == rows - 1 - i,
                    i < 4,
                    g0 == cells(old(lines)@),
                    lines@.len() == g0.len(),
                    cells(lines@) == weed_painted_upto(g0, cols, rows, i as int, dx as int),
                decreases cols - dx,
            {
                assert(cells(lines@)[y as int].len() == g0[y as int].len());
                if dx < lines[y as usize].len() {
                    put(lines, y as usize, dx, Cell::styled(WEED[dx % WEED.len()], Color::Green));
                }
                assert forall|r: int| 0 <= r < g0.len() implies #[trigger] cells(lines@)[r]
                    =~= weed_painted_upto(g0, cols, rows, i as int, dx + 1)[r] by {}
                assert(cells(lines@) =~= weed_painted_upto(g0, cols, rows, i as int, dx + 1));
                dx += 1;
            }
        }
        assert forall|r: int| 0 <= r < g0.len() implies #[trigger] cells(lines@)[r]
            =~= weed_painted_upto(g0, cols, rows, i + 1, 0)[r] by {}
        assert(cells(lines@) =~= weed_painted_upto(g0, cols, rows, i + 1, 0));
    }
}

} // verus!
