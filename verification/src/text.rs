//! Line splitting and whitespace trimming on text, stated over the text's characters.
use vstd::prelude::*;

verus! {

broadcast use vstd::string::group_string_axioms;

/// Characters with the Unicode `White_Space` property.
pub open spec fn is_white_space(c: char) -> bool {
    let u = c as u32;
    ||| 0x9 <= u <= 0xD
    ||| u == 0x20
    ||| u == 0x85
    ||| u == 0xA0
    ||| u == 0x1680
    ||| 0x2000 <= u <= 0x200A
    ||| u == 0x2028
    ||| u == 0x2029
    ||| u == 0x202F
    ||| u == 0x205F
    ||| u == 0x3000
}

/// Whether `c` is white space, as `char::is_whitespace` answers it.
pub fn is_white_space_char(c: char) -> (b: bool)
    ensures
        b == is_white_space(c),
{
    let u = c as u32;
    (0x9 <= u && u <= 0xD) || u == 0x20 || u == 0x85 || u == 0xA0 || u == 0x1680 || (0x2000 <= u
        && u <= 0x200A) || u == 0x2028 || u == 0x2029 || u == 0x202F || u == 0x205F || u == 0x3000
}

/// `s` without its trailing white space.
pub open spec fn trim_end_chars(s: Seq<char>) -> Seq<char>
    decreases s.len(),
{
    if s.len() > 0 && is_white_space(s.last()) {
        trim_end_chars(s.drop_last())
    } else {
        s
    }
}

/// `s` without its leading white space.
pub open spec fn trim_start_chars(s: Seq<char>) -> Seq<char>
    decreases s.len(),
{
    if s.len() > 0 && is_white_space(s[0]) {
        trim_start_chars(s.drop_first())
    } else {
        s
    }
}

/// `s` without leading and trailing white space.
pub open spec fn trim_chars(s: Seq<char>) -> Seq<char> {
    trim_start_chars(trim_end_chars(s))
}

/// The pieces of `s` between its `'\n'` characters: one more piece than there are newlines.
pub open spec fn segments(s: Seq<char>) -> Seq<Seq<char>>
    decreases s.len(),
{
    if s.len() == 0 {
        seq![Seq::empty()]
    } else {
        let p = segments(s.drop_last());
        if s.last() == '\n' {
            p.push(Seq::empty())
        } else {
            p.update(p.len() - 1, p.last().push(s.last()))
        }
    }
}

/// A line added after a line ending is one more piece.
pub proof fn lemma_segments_line(p: Seq<char>, q: Seq<char>)
    requires
        forall|i: int| 0 <= i < q.len() ==> q[i] != '\n',
    ensures
        segments(p.push('\n') + q) == segments(p).push(q),
    decreases q.len(),
{
    let s = p.push('\n') + q;
    if q.len() == 0 {
        assert(s =~= p.push('\n'));
        assert(s.drop_last() =~= p);
        assert(s.last() == '\n');
        assert(q =~= Seq::<char>::empty());
        assert(segments(s) == segments(s.drop_last()).push(Seq::<char>::empty()));
    } else {
        let q2 = q.drop_last();
        assert forall|i: int| 0 <= i < q2.len() implies q2[i] != '\n' by {
            assert(q2[i] == q[i]);
        }
        lemma_segments_line(p, q2);
        assert(s.drop_last() =~= p.push('\n') + q2);
        assert(s.last() == q.last());
        assert(q[q.len() - 1] != '\n');
        assert(s.len() > 0);
        let pp = segments(s.drop_last());
        assert(pp == segments(p).push(q2));
        assert(segments(s) == pp.update(pp.len() - 1, pp.last().push(s.last())));
        assert(q2.push(q.last()) =~= q);
        assert(segments(p).push(q2).update(segments(p).len() as int, q2.push(q.last())) =~= segments(p).push(q));
    }
}

/// A line that a `"\r\n"` ended, without its `'\r'`.
pub open spec fn strip_cr(l: Seq<char>) -> Seq<char> {
    if l.len() > 0 && l.last() == '\r' {
        l.drop_last()
    } else {
        l
    }
}

/// The lines of `s`: the pieces between line endings (`"\n"` or `"\r\n"`), where a final
/// line ending is optional and an empty text has no line.
pub open spec fn text_lines(s: Seq<char>) -> Seq<Seq<char>> {
    let segs = segments(s);
    let ended = segs.drop_last().map_values(|l: Seq<char>| strip_cr(l));
    if segs.last().len() == 0 {
        ended
    } else {
        ended.push(segs.last())
    }
}

/// The character views of a sequence of string slices.
pub open spec fn str_views(v: Seq<&str>) -> Seq<Seq<char>> {
    v.map_values(|l: &str| l@)
}

pub proof fn lemma_segments_len(s: Seq<char>)
    ensures
        segments(s).len() >= 1,
    decreases s.len(),
{
    if s.len() > 0 {
        lemma_segments_len(s.drop_last());
    }
}

pub proof fn lemma_segments_bounds(s: Seq<char>)
    ensures
        segments(s).len() <= s.len() + 1,
        forall|k: int| 0 <= k < segments(s).len() ==> #[trigger] segments(s)[k].len() <= s.len(),
    decreases s.len(),
{
    if s.len() > 0 {
        lemma_segments_bounds(s.drop_last());
        lemma_segments_len(s.drop_last());
    }
}

/// A text has at most one line more than it has characters, and no line is longer than
/// the text.
pub proof fn lemma_text_lines_bounds(s: Seq<char>)
    ensures
        text_lines(s).len() <= s.len() + 1,
        forall|k: int| 0 <= k < text_lines(s).len() ==> #[trigger] text_lines(s)[k].len() <= s.len(),
{
    lemma_segments_bounds(s);
    lemma_segments_len(s);
    let segs = segments(s);
    assert forall|k: int| 0 <= k < text_lines(s).len() implies #[trigger] text_lines(s)[k].len()
        <= s.len() by {
        if k < segs.len() - 1 {
            assert(segs[k].len() <= s.len());
        }
    }
}

/// Trimming never lengthens a line.
pub proof fn lemma_trim_end_shorter(s: Seq<char>)
    ensures
        trim_end_chars(s).len() <= s.len(),
    decreases s.len(),
{
    if s.len() > 0 && is_white_space(s.last()) {
        lemma_trim_end_shorter(s.drop_last());
    }
}

/// The UTF-8 encoding of a text takes at most four bytes a character.
pub proof fn lemma_encoded_len(s: Seq<char>)
    ensures
        vstd::utf8::encode_utf8(s).len() <= 4 * s.len(),
        s.len() <= vstd::utf8::encode_utf8(s).len(),
    decreases s.len(),
{
    if s.len() > 0 {
        lemma_encoded_len(s.drop_first());
    }
}

/// The characters of `s`, in order.
pub fn chars_of(s: &str) -> (v: Vec<char>)
    ensures
        v@ == s@,
{
    let mut v: Vec<char> = Vec::new();
    for c in it: s.chars()
        invariant
            v@ == it.seq().take(it.index() as int),
            it.seq() == s@,
    {
        v.push(c);
    }
    v
}

/// The number of characters that stay of `cs` once its trailing white space is cut.
fn trimmed_end(cs: &Vec<char>) -> (end: usize)
    ensures
        end <= cs@.len(),
        trim_end_chars(cs@) == cs@.take(end as int),
{
    let mut end = cs.len();
    assert(cs@.take(end as int) =~= cs@);
    while end > 0 && is_white_space_char(cs[end - 1])
        invariant
            end <= cs@.len(),
            trim_end_chars(cs@) == trim_end_chars(cs@.take(end as int)),
        decreases end,
    {
        assert(cs@.take(end as int).drop_last() =~= cs@.take(end - 1));
        end = end - 1;
    }
    end
}

/// `s` without its trailing white space (as `str::trim_end` cuts it).
pub fn trim_end(s: &str) -> (r: &str)
    ensures
        r@ == trim_end_chars(s@),
{
    let cs = chars_of(s);
    let end = trimmed_end(&cs);
    s.substring_char(0, end)
}

/// `s` without leading and trailing white space (as `str::trim` cuts it).
pub fn trim(s: &str) -> (r: &str)
    ensures
        r@ == trim_chars(s@),
{
    let cs = chars_of(s);
    let end = trimmed_end(&cs);
    let ghost t = cs@.take(end as int);
    let mut start: usize = 0;
    assert(t.subrange(0, end as int) =~= t);
    while start < end && is_white_space_char(cs[start])
        invariant
            start <= end <= cs@.len(),
            t == cs@.take(end as int),
            trim_start_chars(t) == trim_start_chars(t.subrange(start as int, end as int)),
        decreases end - start,
    {
        assert(t.subrange(start as int, end as int).drop_first() =~= t.subrange(
            start + 1,
            end as int,
        ));
        start = start + 1;
    }
    assert(cs@.subrange(start as int, end as int) =~= t.subrange(start as int, end as int));
    s.substring_char(start, end)
}

/// The lines of `s` (as `str::lines` yields them), each a slice of `s`.
pub fn lines<'a>(s: &'a str) -> (r: Vec<&'a str>)
    ensures
        str_views(r@) == text_lines(s@),
{
    let cs = chars_of(s);
    let n = cs.len();
    let mut out: Vec<&'a str> = Vec::new();
    let mut start: usize = 0;
    let mut i: usize = 0;
    proof {
        assert(s@.take(0) =~= Seq::<char>::empty());
        assert(str_views(out@) =~= segments(s@.take(0)).drop_last().map_values(
            |l: Seq<char>| strip_cr(l),
        ));
        assert(s@.subrange(0, 0) =~= Seq::<char>::empty());
    }
    while i < n
        invariant
            cs@ == s@,
            n == cs@.len(),
            start <= i <= n,
            str_views(out@) == segments(s@.take(i as int)).drop_last().map_values(
                |l: Seq<char>| strip_cr(l),
            ),
            segments(s@.take(i as int)).last() == s@.subrange(start as int, i as int),
        decreases n - i,
    {
        let ghost p = s@.take(i as int);
        let ghost q = s@.take(i + 1);
        proof {
            assert(q.drop_last() =~= p);
            lemma_segments_len(p);
        }
        let c = cs[i];
        if c == '\n' {
            let end = if i > start && cs[i - 1] == '\r' {
                i - 1
            } else {
                i
            };
            let piece = s.substring_char(start, end);
            proof {
                let cur = s@.subrange(start as int, i as int);
                assert(strip_cr(cur) =~= s@.subrange(start as int, end as int));
            }
            let ghost before = out@;
            out.push(piece);
            proof {
                assert(segments(q) == segments(p).push(Seq::empty()));
                assert(segments(q).drop_last() =~= segments(p));
                assert(segments(p) =~= segments(p).drop_last().push(segments(p).last()));
                assert(str_views(out@) =~= str_views(before).push(piece@));
                assert(segments(q).drop_last().map_values(|l: Seq<char>| strip_cr(l))
                    =~= segments(p).drop_last().map_values(|l: Seq<char>| strip_cr(l)).push(
                    strip_cr(segments(p).last()),
                ));
                assert(s@.subrange(i + 1, i + 1) =~= Seq::<char>::empty());
            }
            start = i + 1;
        } else {
            proof {
                assert(segments(q).drop_last() =~= segments(p).drop_last());
                assert(s@.subrange(start as int, i + 1) =~= s@.subrange(
                    start as int,
                    i as int,
                ).push(c));
            }
        }
        i = i + 1;
    }
    proof {
        assert(s@.take(n as int) =~= s@);
        lemma_segments_len(s@);
    }
    if start < n {
        let piece = s.substring_char(start, n);
        let ghost before = out@;
        out.push(piece);
        assert(str_views(out@) =~= str_views(before).push(piece@));
    }
    out
}

/// The lines of a drawing, each without its trailing white space, as owned strings.
pub fn art_lines(art: &str) -> (body: Vec<String>)
    ensures
        body@.map_values(|l: String| l@) == text_lines(art@).map_values(
            |l: Seq<char>| trim_end_chars(l),
        ),
{
    let ls = lines(art);
    let mut body: Vec<String> = Vec::new();
    for i in 0..ls.len()
        invariant
            str_views(ls@) == text_lines(art@),
            body@.map_values(|l: String| l@) == str_views(ls@).take(i as int).map_values(
                |l: Seq<char>| trim_end_chars(l),
            ),
    {
        let t = trim_end(ls[i]);
        let line = t.to_string();
        assert(line@ == t@);
        let ghost before = body@;
        body.push(line);
        assert(str_views(ls@)[i as int] == ls@[i as int]@);
        assert(str_views(ls@).take(i + 1) =~= str_views(ls@).take(i as int).push(ls@[i as int]@));
        assert(body@.map_values(|l: String| l@) =~= before.map_values(|l: String| l@).push(
            line@,
        ));
        assert(body@.map_values(|l: String| l@) =~= str_views(ls@).take(i + 1).map_values(
            |l: Seq<char>| trim_end_chars(l),
        ));
    }
    assert(str_views(ls@).take(ls@.len() as int) =~= str_views(ls@));
    body
}

} // verus!
