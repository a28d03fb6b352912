//! Painting the creatures and the scenery into the picture. Every painter leaves the picture's
//! shape alone and changes only the cells it names.
use vstd::prelude::*;

use crate::canvas::{cells, painted, put, same_shape, Cell};
use crate::color::Color;
use crate::entities::{Bubble, Fish, Seaweed, BUBBLE_FRAMES, seaweed_symbol};
use crate::text::{chars_of, lines, str_views, text_lines};

verus! {

broadcast use vstd::string::group_string_axioms;

/// The house that stands on the sea floor.
pub const KAME_HOUSE: &'static str = r#"
  ___________
 /   KAME    \
/    HOUSE    \
|  []  __  []  |
|_____|__|_____|
"#;

/// The column where a drawing that starts at `x` begins, `x` read as a signed 16-bit number.
pub open spec fn start_col(x: u16) -> int {
    if x < 0x8000 {
        x as int
    } else {
        x as int - 0x10000
    }
}

/// Whether character `c - start_col(x)` of line `r - y` of `body` lands on cell (`r`, `c`)
/// inside the first `width` columns, counting only lines before `k` and, of line `k`, the
/// characters before `m`.
pub open spec fn body_covers_upto(
    body: Seq<Seq<char>>,
    x: u16,
    y: u16,
    width: u16,
    r: int,
    c: int,
    k: int,
    m: int,
) -> bool {
    let dy = r - y;
    let i = c - start_col(x);
    &&& 0 <= dy < body.len()
    &&& 0 <= i < body[dy].len()
    &&& 0 <= c < width
    &&& (dy < k || (dy == k && i < m))
}

/// `grid` with the part of `body` that `body_covers_upto` names painted in `color`.
pub open spec fn body_painted_upto(
    grid: Seq<Seq<Cell>>,
    body: Seq<Seq<char>>,
    x: u16,
    y: u16,
    color: Color,
    width: u16,
    k: int,
    m: int,
) -> Seq<Seq<Cell>> {
    Seq::new(
        grid.len(),
        |r: int|
            Seq::new(
                grid[r].len(),
                |c: int|
                    if body_covers_upto(body, x, y, width, r, c, k, m) {
                        painted(body[r - y][c - start_col(x)], color)
                    } else {
                        grid[r][c]
                    },
            ),
    )
}

/// `grid` with the drawing `body`, whose top left corner is at (`x`, `y`), painted in
/// `color`: each character lands on its own cell, and only cells in the first `width`
/// columns of the grid are painted.
pub open spec fn body_painted(
    grid: Seq<Seq<Cell>>,
    body: Seq<Seq<char>>,
    x: u16,
    y: u16,
    color: Color,
    width: u16,
) -> Seq<Seq<Cell>> {
    body_painted_upto(grid, body, x, y, color, width, body.len() as int, 0)
}

/// Each line of `body` that lands on one of the first `rows` rows ends by column 32767, so
/// its columns fit a signed 16-bit number.
pub open spec fn body_fits(body: Seq<Seq<char>>, x: u16, y: u16, rows: int) -> bool {
    forall|dy: int|
        0 <= dy < body.len() && y + dy < rows ==> #[trigger] body[dy].len() <= 0x8000
            && start_col(x) + body[dy].len() <= 0x8000
}

/// Whether the drawing `body`, top left corner at (`x`, `y`), fits `body_fits` for a picture
/// of `rows` rows, so that it may be painted.
pub fn body_fits_check(body: &Vec<String>, x: u16, y: u16, rows: usize) -> (ok: bool)
    ensures
        ok == body_fits(string_lines(body@), x, y, rows as int),
{
    let start: i64 = if x < 0x8000 {
        x as i64
    } else {
        x as i64 - 0x10000
    };
    let ghost lines_view = string_lines(body@);
    for dy in 0..body.len()
        invariant
            start == start_col(x),
            lines_view == string_lines(body@),
            forall|d: int|
                0 <= d < dy && y + d < rows ==> #[trigger] lines_view[d].len() <= 0x8000 && start_col(x)
                    + lines_view[d].len() <= 0x8000,
    {
        if (y as usize) < rows && dy < rows - y as usize {
            let n = body[dy].as_str().unicode_len();
            assert(n == lines_view[dy as int].len());
            if n > 0x8000 || start + n as i64 > 0x8000 {
                return false;
            }
        }
    }
    true
}

/// The lines of a drawing.
pub open spec fn string_lines(body: Seq<String>) -> Seq<Seq<char>> {
    body.map_values(|l: String| l@)
}

/// Paints the drawing `body`, top left corner at (`x`, `y_top`), in `color`, into the first
/// `width` columns.
pub fn paint_body(
    lines: &mut Vec<Vec<Cell>>,
    body: &Vec<String>,
    x: u16,
    y_top: u16,
    color: Color,
    width: u16,
)
    requires
        body_fits(string_lines(body@), x, y_top, old(lines)@.len() as int),
    ensures
        cells(final(lines)@) == body_painted(
            cells(old(lines)@),
            string_lines(body@),
            x,
            y_top,
            color,
            width,
        ),
{
    let ghost g0 = cells(lines@);
    let ghost body_view = string_lines(body@);
    let start_x: i32 = if x < 0x8000 {
        x as i32
    } else {
        x as i32 - 0x10000
    };
    assert forall|r: int| 0 <= r < g0.len() implies #[trigger] g0[r] =~= body_painted_upto(
        g0,
        body_view,
        x,
        y_top,
        color,
        width,
        0,
        0,
    )[r] by {}
    assert(g0 =~= body_painted_upto(g0, body_view, x, y_top, color, width, 0, 0));
    let mut dy: usize = 0;
    while dy < body.len()
        invariant
            dy <= body@.len(),
            body_view == string_lines(body@),
            g0 == cells(old(lines)@),
            lines@.len() == g0.len(),
            start_x == start_col(x),
            body_fits(body_view, x, y_top, g0.len() as int),
            cells(lines@) == body_painted_upto(
                g0,
                body_view,
                x,
                y_top,
                color,
                width,
                dy as int,
                0,
            ),
        decreases body@.len() - dy,
    {
        if (y_top as usize) < lines.len() && dy < lines.len() - y_top as usize {
            let y = y_top as usize + dy;
            let chars = chars_of(body[dy].as_str());
            assert(chars@ == body_view[dy as int]);
            let mut i: usize = 0;
            while i < chars.len()
                invariant
                    i <= chars@.len(),
                    chars@ == body_view[dy as int],
                    y == y_top + dy,
                    y < g0.len(),
                    lines@.len() == g0.len(),
                    dy < body_view.len(),
                    start_x == start_col(x),
                    body_fits(body_view, x, y_top, g0.len() as int),
                    cells(lines@) == body_painted_upto(
                        g0,
                        body_view,
                        x,
                        y_top,
                        color,
                        width,
                        dy as int,
                        i as int,
                    ),
                decreases chars@.len() - i,
            {
                assert(body_view[dy as int].len() <= 0x8000 && start_col(x) + body_view[dy as int].len()
                    <= 0x8000);
                let screen_x: i32 = start_x + i as i32;
                if screen_x >= 0 && (screen_x as u16) < width && (screen_x as usize)
                    < lines[y].len() {
                    put(lines, y, screen_x as usize, Cell::styled(chars[i], color));
                }
                assert forall|r: int| 0 <= r < g0.len() implies #[trigger] cells(lines@)[r]
                    =~= body_painted_upto(
                    g0,
                    body_view,
                    x,
                    y_top,
                    color,
                    width,
                    dy as int,
                    i + 1,
                )[r] by {}
                assert(cells(lines@) =~= body_painted_upto(
                    g0,
                    body_view,
                    x,
                    y_top,
                    color,
                    width,
                    dy as int,
                    i + 1,
                ));
                i += 1;
            }
        }
        assert forall|r: int| 0 <= r < g0.len() implies #[trigger] cells(lines@)[r]
            =~= body_painted_upto(
            g0,
            body_view,
            x,
            y_top,
            color,
            width,
            dy + 1,
            0,
        )[r] by {}
        assert(cells(lines@) =~= body_painted_upto(
            g0,
            body_view,
            x,
            y_top,
            color,
            width,
            dy + 1,
            0,
        ));
        dy += 1;
    }
}

/// Paints the fish's drawing, in its colour, into the first `inner_width` columns.
pub fn render_fish(lines: &mut Vec<Vec<Cell>>, fish: &Fish, inner_width: u16)
    requires
        body_fits(fish.body_lines(), fish.x, fish.y, old(lines)@.len() as int),
    ensures
        cells(final(lines)@) == body_painted(
            cells(old(lines)@),
            fish.body_lines(),
            fish.x,
            fish.y,
            fish.color,
            inner_width,
        ),
{
    paint_body(lines, &fish.body, fish.x, fish.y, fish.color, inner_width);
}

/// The character a bubble in look `frame` shows.
pub open spec fn bubble_glyph(frame: int) -> char {
    BUBBLE_FRAMES@[frame]@[0]
}

/// The column a bubble is drawn in: its own, moved left onto the last of `width` columns.
pub open spec fn bubble_col(b: Bubble, width: u16) -> int {
    if b.x < width - 1 {
        b.x as int
    } else {
        width - 1
    }
}

/// `grid` with the bubble's look painted in its colour on its cell, when that cell is in
/// the grid.
pub open spec fn bubble_painted(grid: Seq<Seq<Cell>>, b: Bubble, width: u16) -> Seq<Seq<Cell>> {
    let y = b.y as int;
    let x = bubble_col(b, width);
    if y < grid.len() && 0 <= x < grid[y].len() {
        grid.update(y, grid[y].update(x, painted(bubble_glyph(b.frame as int), b.color)))
    } else {
        grid
    }
}

/// Paints the bubble's current look, in its colour, on its cell.
pub fn render_bubble(lines: &mut Vec<Vec<Cell>>, bubble: &Bubble, inner_width: u16)
    requires
        bubble.y < old(lines)@.len() ==> inner_width > 0,
        bubble.y < old(lines)@.len() && bubble_col(*bubble, inner_width) < old(
            lines,
        )@[bubble.y as int]@.len() ==> bubble.frame < BUBBLE_FRAMES@.len(),
    ensures
        cells(final(lines)@) == bubble_painted(cells(old(lines)@), *bubble, inner_width),
{
    let y_idx = bubble.y as usize;
    if y_idx < lines.len() {
        let x_idx = (if bubble.x < inner_width - 1 {
            bubble.x
        } else {
            inner_width - 1
        }) as usize;
        if x_idx < lines[y_idx].len() {
            let symbol = bubble.current_symbol();
            proof {
                crate::entities::lemma_bubble_frames_single_chars();
            }
            put(lines, y_idx, x_idx, Cell::styled(symbol.get_char(0), bubble.color));
        }
    }
}

/// `y - d`, or 0 where that would be negative.
pub open spec fn sat_sub(y: int, d: int) -> int {
    if y >= d {
        y - d
    } else {
        0
    }
}

/// The lines of a strand's look that show, bottom line first: the last `height` lines of
/// the look (all of them when it has fewer).
pub open spec fn seaweed_strokes(frame: int, height: int) -> Seq<Seq<char>> {
    shown_strokes(seaweed_symbol(frame), height)
}

/// The last `height` lines of `s` (all of them when it has fewer), bottom line first.
pub open spec fn shown_strokes(s: Seq<Seq<char>>, height: int) -> Seq<Seq<char>> {
    Seq::new(
        if height < s.len() {
            height as nat
        } else {
            s.len()
        },
        |k: int| s[s.len() - 1 - k],
    )
}

/// `grid` with the first `m` characters of `line` painted green from column `x` of row
/// `row`, on the cells that row has.
pub open spec fn stroke_painted(
    grid: Seq<Seq<Cell>>,
    line: Seq<char>,
    x: int,
    row: int,
    m: int,
) -> Seq<Seq<Cell>> {
    if 0 <= row < grid.len() {
        grid.update(
            row,
            Seq::new(
                grid[row].len(),
                |c: int|
                    if x <= c && c - x < m && c - x < line.len() {
                        painted(line[c - x], Color::Green)
                    } else {
                        grid[row][c]
                    },
            ),
        )
    } else {
        grid
    }
}

/// `grid` after the first `k` of `strokes` are painted in turn, stroke `d` on row `y - d`
/// (row 0 once that runs out), each over what came before.
pub open spec fn strokes_painted(
    grid: Seq<Seq<Cell>>,
    strokes: Seq<Seq<char>>,
    x: int,
    y: int,
    k: nat,
) -> Seq<Seq<Cell>>
    decreases k,
{
    if k == 0 {
        grid
    } else {
        let g = strokes_painted(grid, strokes, x, y, (k - 1) as nat);
        stroke_painted(
            g,
            strokes[k - 1],
            x,
            sat_sub(y, k - 1),
            strokes[k - 1].len() as int,
        )
    }
}

/// `grid` with the strand painted green: its showing lines stacked upwards from its cell,
/// which is moved onto the last of `width` columns and `height` rows.
pub open spec fn seaweed_painted(
    grid: Seq<Seq<Cell>>,
    s: Seaweed,
    width: u16,
    height: u16,
) -> Seq<Seq<Cell>> {
    let strokes = seaweed_strokes(s.frame as int, s.height as int);
    let x = if s.x < width - 1 {
        s.x as int
    } else {
        width - 1
    };
    let y = if s.y < height - 1 {
        s.y as int
    } else {
        height - 1
    };
    strokes_painted(grid, strokes, x, y, strokes.len())
}

/// Paints a strand of seaweed, green, upwards from its cell.
pub fn render_seaweed(
    lines: &mut Vec<Vec<Cell>>,
    seaweed: &Seaweed,
    inner_width: u16,
    inner_height: u16,
)
    requires
        inner_width > 0,
        inner_height > 0,
        seaweed.frame < 2,
    ensures
        cells(final(lines)@) == seaweed_painted(
            cells(old(lines)@),
            *seaweed,
            inner_width,
            inner_height,
        ),
{
    let x = (if seaweed.x < inner_width - 1 {
        seaweed.x
    } else {
        inner_width - 1
    }) as usize;
    let y = (if seaweed.y < inner_height - 1 {
        seaweed.y
    } else {
        inner_height - 1
    }) as usize;
    let symbol = seaweed.current_symbol();
    paint_strokes(lines, &symbol, seaweed.height, x, y);
}

/// Paints green the last `height` lines of `symbol`, bottom line first, the bottom one from
/// cell (`x`, `y`) and each further one a row higher (on row 0 once the rows run out).
pub fn paint_strokes(lines: &mut Vec<Vec<Cell>>, symbol: &Vec<&str>, height: usize, x: usize, y: usize)
    ensures
        cells(final(lines)@) == strokes_painted(
            cells(old(lines)@),
            shown_strokes(str_views(symbol@), height as int),
            x as int,
            y as int,
            shown_strokes(str_views(symbol@), height as int).len(),
        ),
{
    let ghost g0 = cells(lines@);
    let ghost strokes = shown_strokes(str_views(symbol@), height as int);
    let mut symbol_line: Vec<&str> = Vec::new();
    let n = symbol.len();
    let shown = if height < n {
        height
    } else {
        n
    };
    for k in 0..shown
        invariant
            n == symbol@.len(),
            shown <= n,
            strokes.len() == shown,
            strokes == shown_strokes(str_views(symbol@), height as int),
            symbol_line@.len() == k,
            forall|j: int| 0 <= j < k ==> #[trigger] symbol_line@[j]@ == strokes[j],
    {
        assert(str_views(symbol@)[n - 1 - k] == symbol@[n - 1 - k]@);
        symbol_line.push(symbol[n - 1 - k]);
    }
    let mut dy: usize = 0;
    while dy < symbol_line.len()
        invariant
            dy <= symbol_line@.len(),
            symbol_line@.len() == strokes.len(),
            forall|j: int| 0 <= j < strokes.len() ==> #[trigger] symbol_line@[j]@ == strokes[j],
            g0 == cells(old(lines)@),
            lines@.len() == g0.len(),
            cells(lines@) == strokes_painted(g0, strokes, x as int, y as int, dy as nat),
        decreases symbol_line@.len() - dy,
    {
        let ghost before = cells(lines@);
        let draw_y = y.saturating_sub(dy);
        let chars = chars_of(symbol_line[dy]);
        assert(chars@ == strokes[dy as int]);
        if draw_y < lines.len() {
            let mut dx: usize = 0;
            assert forall|r: int| 0 <= r < g0.len() implies #[trigger] before[r] =~= stroke_painted(
                before,
                chars@,
                x as int,
                draw_y as int,
                0,
            )[r] by {}
            assert(before =~= stroke_painted(before, chars@, x as int, draw_y as int, 0));
            while dx < chars.len()
                invariant
                    dx <= chars@.len(),
                    draw_y < lines@.len(),
                    lines@.len() == g0.len(),
                    before.len() == g0.len(),
                    cells(lines@) == stroke_painted(
                        before,
                        chars@,
                        x as int,
                        draw_y as int,
                        dx as int,
                    ),
                decreases chars@.len() - dx,
            {
                if x < lines[draw_y].len() && dx < lines[draw_y].len() - x {
                    put(lines, draw_y, x + dx, Cell::styled(chars[dx], Color::Green));
                }
                assert forall|r: int| 0 <= r < g0.len() implies #[trigger] cells(lines@)[r]
                    =~= stroke_painted(
                    before,
                    chars@,
                    x as int,
                    draw_y as int,
                    dx + 1,
                )[r] by {}
                assert(cells(lines@) =~= stroke_painted(
                    before,
                    chars@,
                    x as int,
                    draw_y as int,
                    dx + 1,
                ));
                dx += 1;
            }
        }
        assert(cells(lines@) == strokes_painted(g0, strokes, x as int, y as int, (dy + 1) as nat));
        dy += 1;
    }
}

/// The characters of the sand line, repeated along the sea floor.
pub const SAND: [char; 9] = ['.', '·', '°', '.', '·', '°', '˙', '.', '·'];

/// The characters of the weed lines above the sand, repeated along the sea floor.
pub const WEED: [char; 6] = ['~', '≈', '∼', '≋', '~', '≈'];

/// The character in column `c` of sea-floor line `i` (0 is the sand at the bottom), the sand
/// shifting one place every third frame.
pub open spec fn seabed_char(i: int, c: int, frame_count: int) -> char {
    if i == 0 {
        SAND@[(c + (frame_count / 3) % 9) % 9]
    } else {
        WEED@[c % 6]
    }
}

/// The colour of sea-floor line `i`: yellow sand, green weed.
pub open spec fn seabed_color(i: int) -> Color {
    if i == 0 {
        Color::Yellow
    } else {
        Color::Green
    }
}

/// `grid` with the sea floor painted: the sand line on row `rows - 1` and three weed lines
/// above it, across the first `cols` columns, only the lines before `k` and, of line `k`,
/// the columns before `m`.
pub open spec fn seabed_painted_upto(
    grid: Seq<Seq<Cell>>,
    cols: u16,
    rows: u16,
    frame_count: usize,
    k: int,
    m: int,
) -> Seq<Seq<Cell>> {
    Seq::new(
        grid.len(),
        |r: int|
            Seq::new(
                grid[r].len(),
                |c: int|
                    {
                        let i = rows - 1 - r;
                        if 0 <= i < 4 && c < cols && (i < k || (i == k && c < m)) {
                            painted(seabed_char(i, c, frame_count as int), seabed_color(i))
                        } else {
                            grid[r][c]
                        }
                    },
            ),
    )
}

/// `grid` with the whole sea floor painted.
pub open spec fn seabed_painted(
    grid: Seq<Seq<Cell>>,
    cols: u16,
    rows: u16,
    frame_count: usize,
) -> Seq<Seq<Cell>> {
    seabed_painted_upto(grid, cols, rows, frame_count, 4, 0)
}

/// Paints the sea floor: sand that shifts with the frame count, and three lines of weed.
pub fn draw_seaweed(lines: &mut Vec<Vec<Cell>>, cols: u16, rows: u16, frame_count: usize)
    requires
        rows >= 4,
    ensures
        cells(final(lines)@) == seabed_painted(cells(old(lines)@), cols, rows, frame_count),
{
    let ghost g0 = cells(lines@);
    let seaweed_height: u16 = 4;
    let wave_offset = (frame_count / 3) % SAND.len();
    assert forall|r: int| 0 <= r < g0.len() implies #[trigger] g0[r] =~= seabed_painted_upto(
        g0,
        cols,
        rows,
        frame_count,
        0,
        0,
    )[r] by {}
    assert(g0 =~= seabed_painted_upto(g0, cols, rows, frame_count, 0, 0));
    for i in 0..seaweed_height
        invariant
            rows >= 4,
            seaweed_height == 4,
            g0 == cells(old(lines)@),
            lines@.len() == g0.len(),
            wave_offset == (frame_count / 3) % 9,
            cells(lines@) == seabed_painted_upto(g0, cols, rows, frame_count, i as int, 0),
    {
        let y = rows - 1 - i;
        if (y as usize) < lines.len() {
            let row_len = lines[y as usize].len();
            assert(cells(lines@)[y as int].len() == g0[y as int].len());
            let mut dx: usize = 0;
            while dx < cols as usize && dx < row_len
                invariant
                    dx <= cols,
                    (y as usize) < lines@.len(),
                    y == rows - 1 - i,
                    i < 4,
                    row_len == g0[y as int].len(),
                    g0 == cells(old(lines)@),
                    lines@.len() == g0.len(),
                    wave_offset == (frame_count / 3) % 9,
                    cells(lines@) == seabed_painted_upto(
                        g0,
                        cols,
                        rows,
                        frame_count,
                        i as int,
                        dx as int,
                    ),
                decreases cols - dx,
            {
                let ch = if i == 0 {
                    SAND[(dx + wave_offset) % SAND.len()]
                } else {
                    WEED[dx % WEED.len()]
                };
                let color = if i == 0 {
                    Color::Yellow
                } else {
                    Color::Green
                };
                assert(cells(lines@)[y as int].len() == g0[y as int].len());
                put(lines, y as usize, dx, Cell::styled(ch, color));
                assert forall|r: int| 0 <= r < g0.len() implies #[trigger] cells(lines@)[r]
                    =~= seabed_painted_upto(
                    g0,
                    cols,
                    rows,
                    frame_count,
                    i as int,
                    dx + 1,
                )[r] by {}
                assert(cells(lines@) =~= seabed_painted_upto(
                    g0,
                    cols,
                    rows,
                    frame_count,
                    i as int,
                    dx + 1,
                ));
                dx += 1;
            }
        }
        assert forall|r: int| 0 <= r < g0.len() implies #[trigger] cells(lines@)[r]
            =~= seabed_painted_upto(g0, cols, rows, frame_count, i + 1, 0)[r] by {}
        assert(cells(lines@) =~= seabed_painted_upto(g0, cols, rows, frame_count, i + 1, 0));
    }
}

/// The length in bytes (as `str::len` counts it) of the widest of `ls`, 0 when there is none.
pub open spec fn widest(ls: Seq<Seq<char>>) -> nat
    decreases ls.len(),
{
    if ls.len() == 0 {
        0
    } else {
        let w = vstd::utf8::encode_utf8(ls.last()).len();
        let p = widest(ls.drop_last());
        if w > p {
            w
        } else {
            p
        }
    }
}

/// The colour of a character of the house: blue windows, a yellow frame, magenta lettering.
pub open spec fn house_color(ch: char) -> Color {
    if ch == '[' || ch == ']' {
        Color::Blue
    } else if ch == '_' || ch == '|' || ch == '/' || ch == '\\' {
        Color::Yellow
    } else {
        Color::Magenta
    }
}

/// The colour `ch` is drawn in: by `house_color` when `tinted`, else magenta.
pub open spec fn ink(ch: char, tinted: bool) -> Color {
    if tinted {
        house_color(ch)
    } else {
        Color::Magenta
    }
}

/// `grid` with the lines of `art` painted from (`sx`, `sy`) on, character by character, on
/// the cells the grid has; only lines before `k` and, of line `k`, characters before `m`.
pub open spec fn art_painted_upto(
    grid: Seq<Seq<Cell>>,
    art: Seq<Seq<char>>,
    sx: int,
    sy: int,
    tinted: bool,
    k: int,
    m: int,
) -> Seq<Seq<Cell>> {
    Seq::new(
        grid.len(),
        |r: int|
            Seq::new(
                grid[r].len(),
                |c: int|
                    {
                        let dy = r - sy;
                        let dx = c - sx;
                        if 0 <= dy < art.len() && 0 <= dx < art[dy].len() && (dy < k || (dy == k
                            && dx < m)) {
                            painted(art[dy][dx], ink(art[dy][dx], tinted))
                        } else {
                            grid[r][c]
                        }
                    },
            ),
    )
}

/// `grid` with the house drawn from `text`: its top left corner as far right as leaves two
/// columns after the widest line, and its bottom line just above the four sea-floor rows.
pub open spec fn house_painted(
    grid: Seq<Seq<Cell>>,
    text: Seq<char>,
    cols: u16,
    rows: u16,
    tinted: bool,
) -> Seq<Seq<Cell>> {
    let art = text_lines(text);
    art_painted_upto(
        grid,
        art,
        sat_sub(cols as int, widest(art) + 2int),
        sat_sub(rows as int, art.len() + 4int),
        tinted,
        art.len() as int,
        0,
    )
}

/// Paints the house drawn by `text` above the sea floor at the right.
pub(crate) fn paint_house(
    lines: &mut Vec<Vec<Cell>>,
    text: &str,
    cols: u16,
    rows: u16,
    tinted: bool,
)
    requires
        text@.len() <= 1000,
    ensures
        cells(final(lines)@) == house_painted(cells(old(lines)@), text@, cols, rows, tinted),
{
    let ghost g0 = cells(lines@);
    let house_lines = crate::text::lines(text);
    let ghost art = text_lines(text@);
    proof {
        crate::text::lemma_text_lines_bounds(text@);
    }
    let mut house_width: usize = 0;
    for k in 0..house_lines.len()
        invariant
            str_views(house_lines@) == art,
            text@.len() <= 1000,
            art.len() <= 1001,
            forall|j: int| 0 <= j < art.len() ==> #[trigger] art[j].len() <= 1000,
            house_width == widest(art.take(k as int)),
            house_width <= 4000,
    {
        let line = house_lines[k];
        assert(str_views(house_lines@)[k as int] == line@);
        let w = line.len();
        proof {
            crate::text::lemma_encoded_len(line@);
            assert(art.take(k + 1).drop_last() =~= art.take(k as int));
        }
        if w > house_width {
            house_width = w;
        }
    }
    assert(art.take(house_lines@.len() as int) =~= art);
    let house_height = house_lines.len();
    let start_x = cols.saturating_sub(house_width as u16 + 2) as usize;
    let seaweed_height: u16 = 4;
    let start_y = rows.saturating_sub(house_height as u16 + seaweed_height) as usize;
    assert forall|r: int| 0 <= r < g0.len() implies #[trigger] g0[r] =~= art_painted_upto(
        g0,
        art,
        start_x as int,
        start_y as int,
        tinted,
        0,
        0,
    )[r] by {}
    assert(g0 =~= art_painted_upto(g0, art, start_x as int, start_y as int, tinted, 0, 0));
    for dy in 0..house_height
        invariant
            house_height == art.len(),
            art.len() <= 1001,
            forall|j: int| 0 <= j < art.len() ==> #[trigger] art[j].len() <= 1000,
            str_views(house_lines@) == art,
            start_y <= u16::MAX,
            start_x <= u16::MAX,
            g0 == cells(old(lines)@),
            lines@.len() == g0.len(),
            cells(lines@) == art_painted_upto(
                g0,
                art,
                start_x as int,
                start_y as int,
                tinted,
                dy as int,
                0,
            ),
    {
        let y = start_y + dy;
        if y < lines.len() {
            let chars = chars_of(house_lines[dy]);
            assert(str_views(house_lines@)[dy as int] == house_lines@[dy as int]@);
            let row_len = lines[y].len();
            assert(cells(lines@)[y as int].len() == g0[y as int].len());
            let mut dx: usize = 0;
            while dx < chars.len() && start_x + dx < row_len
                invariant
                    dx <= chars@.len(),
                    dy < art.len(),
                    chars@ == art[dy as int],
                    chars@.len() <= 1000,
                    y == start_y + dy,
                    y < lines@.len(),
                    start_x <= u16::MAX,
                    row_len == g0[y as int].len(),
                    g0 == cells(old(lines)@),
                    lines@.len() == g0.len(),
                    cells(lines@) == art_painted_upto(
                        g0,
                        art,
                        start_x as int,
                        start_y as int,
                        tinted,
                        dy as int,
                        dx as int,
                    ),
                decreases chars@.len() - dx,
            {
                let ch = chars[dx];
                let color = if !tinted {
                    Color::Magenta
                } else if ch == '[' || ch == ']' {
                    Color::Blue
                } else if ch == '_' || ch == '|' || ch == '/' || ch == '\\' {
                    Color::Yellow
                } else {
                    Color::Magenta
                };
                assert(cells(lines@)[y as int].len() == g0[y as int].len());
                put(lines, y, start_x + dx, Cell::styled(ch, color));
                assert forall|r: int| 0 <= r < g0.len() implies #[trigger] cells(lines@)[r]
                    =~= art_painted_upto(
                    g0,
                    art,
                    start_x as int,
                    start_y as int,
                    tinted,
                    dy as int,
                    dx + 1,
                )[r] by {}
                assert(cells(lines@) =~= art_painted_upto(
                    g0,
                    art,
                    start_x as int,
                    start_y as int,
                    tinted,
                    dy as int,
                    dx + 1,
                ));
                dx += 1;
            }
        }
        assert forall|r: int| 0 <= r < g0.len() implies #[trigger] cells(lines@)[r]
            =~= art_painted_upto(
            g0,
            art,
            start_x as int,
            start_y as int,
            tinted,
            dy + 1,
            0,
        )[r] by {}
        assert(cells(lines@) =~= art_painted_upto(
            g0,
            art,
            start_x as int,
            start_y as int,
            tinted,
            dy + 1,
            0,
        ));
    }
}

/// Paints the Kame House above the sea floor at the right: windows blue, frame yellow,
/// lettering magenta.
pub fn render_kame_house(lines: &mut Vec<Vec<Cell>>, cols: u16, rows: u16)
    ensures
        cells(final(lines)@) == house_painted(cells(old(lines)@), KAME_HOUSE@, cols, rows, true),
{
    proof {
        reveal_strlit(
            r#"
  ___________
 /   KAME    \
/    HOUSE    \
|  []  __  []  |
|_____|__|_____|
"#,
        );
    }
    paint_house(lines, KAME_HOUSE, cols, rows, true);
}

/// Every line of `ls` has at most `widest(ls)` characters.
proof fn lemma_widest_bounds(ls: Seq<Seq<char>>, k: int)
    requires
        0 <= k < ls.len(),
    ensures
        ls[k].len() <= widest(ls),
    decreases ls.len(),
{
    if k < ls.len() - 1 {
        lemma_widest_bounds(ls.drop_last(), k);
    } else {
        crate::text::lemma_encoded_len(ls[k]);
    }
}

/// What drawing the house does to one cell of `grid`: a cell that a character of the
/// drawing falls on shows that character in its ink; every other cell keeps what it had, so
/// nothing outside the box of the drawing's lines and its widest line changes.
pub proof fn lemma_house_painted_cell(
    grid: Seq<Seq<Cell>>,
    text: Seq<char>,
    cols: u16,
    rows: u16,
    tinted: bool,
    r: int,
    c: int,
)
    requires
        0 <= r < grid.len(),
        0 <= c < grid[r].len(),
    ensures
        ({
            let art = text_lines(text);
            let sx = sat_sub(cols as int, widest(art) + 2int);
            let sy = sat_sub(rows as int, art.len() + 4int);
            let g = house_painted(grid, text, cols, rows, tinted);
            &&& (0 <= r - sy < art.len() && 0 <= c - sx < art[r - sy].len()) ==> g[r][c] == painted(
                art[r - sy][c - sx],
                ink(art[r - sy][c - sx], tinted),
            )
            &&& !(0 <= r - sy < art.len() && 0 <= c - sx < art[r - sy].len()) ==> g[r][c] == grid[r][c]
            &&& !(sy <= r < sy + art.len() && sx <= c < sx + widest(art)) ==> g[r][c] == grid[r][c]
        }),
{
    let art = text_lines(text);
    let sy = sat_sub(rows as int, art.len() + 4int);
    if 0 <= r - sy < art.len() {
        lemma_widest_bounds(art, r - sy);
    }
}

/// Each character of a painted drawing lands on its own cell: character `i` of line `dy`
/// shows, in the drawing's colour, on row `y + dy` and column `start_col(x) + i`, whenever
/// that cell is in the grid and among the first `width` columns; a cell that no character
/// lands on keeps what it had.
pub proof fn lemma_body_painted_cell(
    grid: Seq<Seq<Cell>>,
    body: Seq<Seq<char>>,
    x: u16,
    y: u16,
    color: Color,
    width: u16,
    r: int,
    c: int,
)
    requires
        0 <= r < grid.len(),
        0 <= c < grid[r].len(),
    ensures
        ({
            let dy = r - y;
            let i = c - start_col(x);
            let g = body_painted(grid, body, x, y, color, width);
            &&& (0 <= dy < body.len() && 0 <= i < body[dy].len() && c < width) ==> g[r][c] == (Cell {
                ch: body[dy][i],
                fg: Some(color),
            })
            &&& !(0 <= dy < body.len() && 0 <= i < body[dy].len() && c < width) ==> g[r][c] == grid[r][c]
        }),
{
}

/// A painted bubble shows its current look, `BUBBLE_FRAMES[frame]`, in its colour, on its
/// row and its column moved onto the last of `width` columns; every other cell keeps what
/// it had.
pub proof fn lemma_bubble_painted_cell(grid: Seq<Seq<Cell>>, b: Bubble, width: u16, r: int, c: int)
    requires
        0 <= r < grid.len(),
        0 <= c < grid[r].len(),
    ensures
        ({
            let col = if b.x < width - 1 {
                b.x as int
            } else {
                width - 1
            };
            let g = bubble_painted(grid, b, width);
            &&& (r == b.y && c == col) ==> g[r][c] == (Cell { ch: BUBBLE_FRAMES@[b.frame as int]@[0], fg: Some(b.color) })
            &&& !(r == b.y && c == col) ==> g[r][c] == grid[r][c]
        }),
{
}

/// The colours of the tinted house (as `render_kame_house` draws it): each cell that a
/// character of the drawing falls on shows that character, blue for a window bracket `[`
/// or `]`, yellow for the frame characters `_`, `|`, `/` and `\\`, and magenta for any
/// other character.
pub proof fn lemma_tinted_house_cell(
    grid: Seq<Seq<Cell>>,
    text: Seq<char>,
    cols: u16,
    rows: u16,
    dy: int,
    dx: int,
)
    requires
        0 <= dy < text_lines(text).len(),
        0 <= dx < text_lines(text)[dy].len(),
        sat_sub(rows as int, text_lines(text).len() + 4int) + dy < grid.len(),
        sat_sub(cols as int, widest(text_lines(text)) + 2int) + dx < grid[sat_sub(
            rows as int,
            text_lines(text).len() + 4int,
        ) + dy].len(),
    ensures
        ({
            let art = text_lines(text);
            let r = sat_sub(rows as int, art.len() + 4int) + dy;
            let c = sat_sub(cols as int, widest(art) + 2int) + dx;
            let ch = art[dy][dx];
            let g = house_painted(grid, text, cols, rows, true);
            &&& g[r][c].ch == ch
            &&& g[r][c].fg == Some(
                if ch == '[' || ch == ']' {
                    Color::Blue
                } else if ch == '_' || ch == '|' || ch == '/' || ch == '\\' {
                    Color::Yellow
                } else {
                    Color::Magenta
                },
            )
        }),
{
    let art = text_lines(text);
    let r = sat_sub(rows as int, art.len() + 4int) + dy;
    let c = sat_sub(cols as int, widest(art) + 2int) + dx;
    lemma_house_painted_cell(grid, text, cols, rows, true, r, c);
}

/// Strokes are painted upwards, one row each: character `i` of stroke `k` shows green on
/// row `y - k` (row 0 once `k` passes `y`) and column `x + i`, whenever that cell is in the
/// grid, unless a later stroke is painted on the same row, which happens only on row 0.
pub proof fn lemma_strokes_painted_cell(
    grid: Seq<Seq<Cell>>,
    strokes: Seq<Seq<char>>,
    x: int,
    y: int,
    n: nat,
    k: int,
    i: int,
)
    requires
        n <= strokes.len(),
        0 <= k < n,
        k < y || k == n - 1,
        0 <= i < strokes[k].len(),
        0 <= sat_sub(y, k) < grid.len(),
        0 <= x + i < grid[sat_sub(y, k)].len(),
    ensures
        strokes_painted(grid, strokes, x, y, n)[sat_sub(y, k)][x + i] == (Cell {
            ch: strokes[k][i],
            fg: Some(Color::Green),
        }),
    decreases n,
{
    let g = strokes_painted(grid, strokes, x, y, (n - 1) as nat);
    lemma_strokes_painted_shape(grid, strokes, x, y, (n - 1) as nat);
    assert(g[sat_sub(y, k)].len() == grid[sat_sub(y, k)].len());
    if k < n - 1 {
        lemma_strokes_painted_cell(grid, strokes, x, y, (n - 1) as nat, k, i);
        assert(sat_sub(y, n - 1) != sat_sub(y, k));
    }
}

/// The sea floor covers the four bottom rows across the first `cols` columns: on the
/// bottom row yellow sand, `SAND` repeated from column `(frame_count / 3) % 9` of the
/// pattern on; on the three rows above it green weed, `WEED` repeated from the left edge;
/// every other cell keeps what it had.
pub proof fn lemma_seabed_cell(
    grid: Seq<Seq<Cell>>,
    cols: u16,
    rows: u16,
    frame_count: usize,
    r: int,
    c: int,
)
    requires
        0 <= r < grid.len(),
        0 <= c < grid[r].len(),
    ensures
        ({
            let g = seabed_painted(grid, cols, rows, frame_count);
            &&& (r == rows - 1 && c < cols) ==> g[r][c] == (Cell {
                ch: SAND@[(c + (frame_count / 3) % 9) % 9],
                fg: Some(Color::Yellow),
            })
            &&& (rows - 4 <= r < rows - 1 && c < cols) ==> g[r][c] == (Cell {
                ch: WEED@[c % 6],
                fg: Some(Color::Green),
            })
            &&& !(rows - 4 <= r < rows && c < cols) ==> g[r][c] == grid[r][c]
        }),
{
}

/// The sand drifts left one column every three frames: three frames later, each sand
/// cell shows what the cell to its right showed, and the weed rows stay as they were.
pub proof fn lemma_sand_drifts(grid: Seq<Seq<Cell>>, cols: u16, rows: u16, frame_count: usize, r: int, c: int)
    requires
        frame_count + 3 <= usize::MAX,
        0 <= r < grid.len(),
        0 <= c,
        c + 1 < grid[r].len(),
        c + 1 < cols,
        rows - 4 <= r < rows,
    ensures
        r == rows - 1 ==> seabed_painted(grid, cols, rows, (frame_count + 3) as usize)[r][c]
            == seabed_painted(grid, cols, rows, frame_count)[r][c + 1],
        r < rows - 1 ==> seabed_painted(grid, cols, rows, (frame_count + 3) as usize)[r][c]
            == seabed_painted(grid, cols, rows, frame_count)[r][c],
{
    let q = (frame_count / 3) as int;
    assert((frame_count + 3) / 3 == q + 1);
    assert((c + (q + 1) % 9) % 9 == (c + 1 + q % 9) % 9) by (nonlinear_arith)
        requires
            c >= 0,
            q >= 0,
    ;
}

/// A painted strand shows its bends from its foot upwards, green, in its column (moved
/// onto the last of `width` columns): the bend `k` rows above its foot (row 0 once `k`
/// passes the foot's row) is `(` when `k` and the strand's look are both even or both odd,
/// else `)`. A strand shows at most `height` lines and at most five bends.
pub proof fn lemma_seaweed_shows_its_bends(grid: Seq<Seq<Cell>>, s: Seaweed, width: u16, height: u16, k: int)
    requires
        s.frame < 2,
        0 <= k < 5,
        k < s.height,
        ({
            let x = if s.x < width - 1 {
                s.x as int
            } else {
                width - 1
            };
            let y = if s.y < height - 1 {
                s.y as int
            } else {
                height - 1
            };
            &&& k < y || k + 1 == s.height
            &&& 0 <= sat_sub(y, k) < grid.len()
            &&& 0 <= x < grid[sat_sub(y, k)].len()
        }),
    ensures
        ({
            let x = if s.x < width - 1 {
                s.x as int
            } else {
                width - 1
            };
            let y = if s.y < height - 1 {
                s.y as int
            } else {
                height - 1
            };
            seaweed_painted(grid, s, width, height)[sat_sub(y, k)][x] == (Cell {
                ch: if (k + s.frame) % 2 == 0 {
                    '('
                } else {
                    ')'
                },
                fg: Some(Color::Green),
            })
        }),
{
    let x = if s.x < width - 1 {
        s.x as int
    } else {
        width - 1
    };
    let y = if s.y < height - 1 {
        s.y as int
    } else {
        height - 1
    };
    crate::entities::lemma_seaweed_looks();
    let sym = seaweed_symbol(s.frame as int);
    let strokes = seaweed_strokes(s.frame as int, s.height as int);
    assert(strokes[k] == sym[5 - k]);
    assert(strokes[k].len() == 1);
    if s.frame == 0 {
        assert(strokes[k][0] == if k % 2 == 0 {
            '('
        } else {
            ')'
        });
    } else {
        assert(strokes[k][0] == if k % 2 == 0 {
            ')'
        } else {
            '('
        });
    }
    lemma_strokes_painted_cell(grid, strokes, x, y, strokes.len(), k, 0);
}

/// Drawing the house a second time changes nothing.
pub proof fn lemma_house_painted_twice(
    grid: Seq<Seq<Cell>>,
    text: Seq<char>,
    cols: u16,
    rows: u16,
    tinted: bool,
)
    ensures
        house_painted(house_painted(grid, text, cols, rows, tinted), text, cols, rows, tinted)
            == house_painted(grid, text, cols, rows, tinted),
{
    let g1 = house_painted(grid, text, cols, rows, tinted);
    let g2 = house_painted(g1, text, cols, rows, tinted);
    assert forall|r: int| 0 <= r < g2.len() implies #[trigger] g2[r] =~= g1[r] by {}
    assert(g2 =~= g1);
}

/// Painting a drawing keeps the picture's shape.
pub proof fn lemma_body_painted_shape(
    grid: Seq<Seq<Cell>>,
    body: Seq<Seq<char>>,
    x: u16,
    y: u16,
    color: Color,
    width: u16,
)
    ensures
        same_shape(body_painted(grid, body, x, y, color, width), grid),
{
}

/// Painting a bubble keeps the picture's shape.
pub proof fn lemma_bubble_painted_shape(grid: Seq<Seq<Cell>>, b: Bubble, width: u16)
    ensures
        same_shape(bubble_painted(grid, b, width), grid),
{
    let g2 = bubble_painted(grid, b, width);
    let y = b.y as int;
    let x = bubble_col(b, width);
    if y < grid.len() && 0 <= x < grid[y].len() {
        let cell = painted(bubble_glyph(b.frame as int), b.color);
        assert(g2 == grid.update(y, grid[y].update(x, cell)));
        assert forall|r: int| 0 <= r < g2.len() implies #[trigger] g2[r].len() == grid[r].len() by {
            if r == y {
                assert(g2[r] == grid[y].update(x, cell));
            }
        }
    }
}

/// Painting strokes keeps the picture's shape.
pub proof fn lemma_strokes_painted_shape(
    grid: Seq<Seq<Cell>>,
    strokes: Seq<Seq<char>>,
    x: int,
    y: int,
    k: nat,
)
    ensures
        same_shape(strokes_painted(grid, strokes, x, y, k), grid),
    decreases k,
{
    if k > 0 {
        lemma_strokes_painted_shape(grid, strokes, x, y, (k - 1) as nat);
    }
}

/// Painting a strand of seaweed keeps the picture's shape.
pub proof fn lemma_seaweed_painted_shape(grid: Seq<Seq<Cell>>, s: Seaweed, width: u16, height: u16)
    ensures
        same_shape(seaweed_painted(grid, s, width, height), grid),
{
    let strokes = seaweed_strokes(s.frame as int, s.height as int);
    let x = if s.x < width - 1 {
        s.x as int
    } else {
        width - 1
    };
    let y = if s.y < height - 1 {
        s.y as int
    } else {
        height - 1
    };
    lemma_strokes_painted_shape(grid, strokes, x, y, strokes.len());
}

/// Painting the sea floor keeps the picture's shape.
pub proof fn lemma_seabed_painted_shape(
    grid: Seq<Seq<Cell>>,
    cols: u16,
    rows: u16,
    frame_count: usize,
)
    ensures
        same_shape(seabed_painted(grid, cols, rows, frame_count), grid),
{
}

/// Painting a house keeps the picture's shape.
pub proof fn lemma_house_painted_shape(
    grid: Seq<Seq<Cell>>,
    text: Seq<char>,
    cols: u16,
    rows: u16,
    tinted: bool,
)
    ensures
        same_shape(house_painted(grid, text, cols, rows, tinted), grid),
{
}

} // verus!
