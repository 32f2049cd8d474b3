//! Reflow of one paragraph: words, atomic units, and the decision whether
//! the new layout differs from the text as it stands.

use vstd::prelude::*;

use crate::chunk::CommentVariant;
use crate::layout::{layout, layout_lines, render, render_lines, views, copy_chars};
use crate::span::Range;
use crate::text::{chars_of, push_all, string_of};
use crate::tokenize::{runs_spec, split_runs, words_of};

verus! {

/// The unbreakable range `u` shares an offset with word `w` of a paragraph starting at `off`.
pub open spec fn touches(u: Range, w: Range, off: int) -> bool {
    u.start < w.end + off && w.start + off < u.end
}

/// Words `i` and `i + 1` lie in one unbreakable range.
pub open spec fn glued(ws: Seq<Range>, ub: Seq<Range>, off: int, i: int) -> bool {
    exists|j: int|
        0 <= j < ub.len() && touches(#[trigger] ub[j], ws[i], off) && touches(ub[j], ws[i + 1], off)
}

pub open spec fn word_text(p: Seq<char>, w: Range) -> Seq<char> {
    p.subrange(w.start as int, w.end as int)
}

/// Grouping of words into units, continued from word `i` with the open unit `cur`.
pub open spec fn group(
    p: Seq<char>,
    ws: Seq<Range>,
    ub: Seq<Range>,
    off: int,
    i: int,
    cur: Seq<char>,
    done: Seq<Seq<char>>,
) -> Seq<Seq<char>>
    decreases ws.len() - i,
{
    if i >= ws.len() || i < 1 {
        done.push(cur)
    } else if glued(ws, ub, off, i - 1) {
        group(p, ws, ub, off, i + 1, cur + seq![' '] + word_text(p, ws[i]), done)
    } else {
        group(p, ws, ub, off, i + 1, word_text(p, ws[i]), done.push(cur))
    }
}

/// The atomic units of a paragraph: its words, where neighbours inside one
/// unbreakable range are joined by a single space into one unit.
pub open spec fn units_of(p: Seq<char>, ws: Seq<Range>, ub: Seq<Range>, off: int) -> Seq<
    Seq<char>,
> {
    if ws.len() == 0 {
        seq![]
    } else {
        group(p, ws, ub, off, 1, word_text(p, ws[0]), seq![])
    }
}

/// A line closed by a line feed, without the carriage return before it.
pub open spec fn without_cr(l: Seq<char>) -> Seq<char> {
    if l.len() > 0 && l.last() == '\r' {
        l.drop_last()
    } else {
        l
    }
}

/// Splitting on line breaks (`\n` or `\r\n`), continued from the open line `cur`.
pub open spec fn split_go(p: Seq<char>, cur: Seq<char>, done: Seq<Seq<char>>) -> Seq<Seq<char>>
    decreases p.len(),
{
    if p.len() == 0 {
        done.push(cur)
    } else if p[0] == '\n' {
        split_go(p.drop_first(), seq![], done.push(without_cr(cur)))
    } else {
        split_go(p.drop_first(), cur.push(p[0]), done)
    }
}

/// The lines of `p`, split at each line break: a line feed, or a carriage
/// return followed by a line feed.
pub open spec fn source_lines(p: Seq<char>) -> Seq<Seq<char>> {
    split_go(p, seq![], seq![])
}

/// Each new line is identical to the source line at its index.
pub open spec fn unchanged(lines: Seq<Seq<char>>, src: Seq<Seq<char>>) -> bool {
    &&& lines.len() <= src.len()
    &&& forall|i: int| 0 <= i < lines.len() ==> #[trigger] lines[i] == src[i]
}

/// The replacement for paragraph `p` (at offset `off` of its chunk), or
/// `None` where it has no word or its layout is unchanged.
pub open spec fn reflow_result(
    p: Seq<char>,
    ub: Seq<Range>,
    off: int,
    ind: Seq<usize>,
    max: int,
    v: CommentVariant,
) -> Option<Seq<char>> {
    let lines = layout(units_of(p, runs_spec(true, p), ub, off), max, ind);
    if lines.len() == 0 || unchanged(lines, source_lines(p)) {
        None
    } else {
        Some(render(lines, ind, v))
    }
}

pub open spec fn opt_view(r: Option<String>) -> Option<Seq<char>> {
    match r {
        Some(s) => Some(s@),
        None => None,
    }
}

fn is_glued(ub: &Vec<Range>, off: usize, a: Range, b: Range) -> (r: bool)
    ensures
        r == exists|j: int|
            0 <= j < ub@.len() && touches(#[trigger] ub@[j], a, off as int) && touches(
                ub@[j],
                b,
                off as int,
            ),
{
    let mut j: usize = 0;
    while j < ub.len()
        invariant
            j <= ub@.len(),
            forall|k: int|
                0 <= k < j ==> !(touches(#[trigger] ub@[k], a, off as int) && touches(
                    ub@[k],
                    b,
                    off as int,
                )),
        decreases ub@.len() - j,
    {
        let u = ub[j];
        let ta = (u.start as u128) < (a.end as u128) + (off as u128) && (a.start as u128) + (
        off as u128) < (u.end as u128);
        let tb = (u.start as u128) < (b.end as u128) + (off as u128) && (b.start as u128) + (
        off as u128) < (u.end as u128);
        if ta && tb {
            assert(touches(ub@[j as int], a, off as int));
            return true;
        }
        j = j + 1;
    }
    false
}

fn copy_range(p: &Vec<char>, start: usize, end: usize) -> (r: Vec<char>)
    requires
        start <= end <= p@.len(),
    ensures
        r@ == p@.subrange(start as int, end as int),
{
    let mut r: Vec<char> = Vec::new();
    let mut k: usize = start;
    while k < end
        invariant
            start <= k <= end <= p@.len(),
            r@ == p@.subrange(start as int, k as int),
        decreases end - k,
    {
        r.push(p[k]);
        k = k + 1;
        assert(r@ =~= p@.subrange(start as int, k as int));
    }
    r
}

/// The atomic units of a paragraph.
pub fn paragraph_units(p: &Vec<char>, ws: &Vec<Range>, ub: &Vec<Range>, off: usize) -> (r: Vec<
    Vec<char>,
>)
    requires
        words_of(p@, ws@),
    ensures
        views(r@) == units_of(p@, ws@, ub@, off as int),
{
    let n = ws.len();
    if n == 0 {
        let r: Vec<Vec<char>> = Vec::new();
        assert(views(r@) =~= seq![]);
        return r;
    }
    assert(crate::tokenize::is_run(true, p@, ws@[0]));
    let mut done: Vec<Vec<char>> = Vec::new();
    let mut cur = copy_range(p, ws[0].start, ws[0].end);
    let mut i: usize = 1;
    assert(views(done@) =~= seq![]);
    while i < n
        invariant
            n == ws@.len(),
            1 <= i <= n,
            words_of(p@, ws@),
            group(p@, ws@, ub@, off as int, i as int, cur@, views(done@)) == units_of(
                p@,
                ws@,
                ub@,
                off as int,
            ),
        decreases n - i,
    {
        let w = ws[i];
        assert(crate::tokenize::is_run(true, p@, ws@[i as int]));
        let text = copy_range(p, w.start, w.end);
        let ghost old_cur = cur@;
        if is_glued(ub, off, ws[i - 1], w) {
            cur.push(' ');
            push_all(&mut cur, &text);
            assert(cur@ =~= old_cur + seq![' '] + word_text(p@, ws@[i as int]));
        } else {
            let ghost old_done = done@;
            done.push(cur);
            assert(views(done@) =~= views(old_done).push(old_cur));
            cur = text;
        }
        i = i + 1;
    }
    let ghost old_done = done@;
    done.push(cur);
    assert(views(done@) =~= views(old_done).push(views(done@).last()));
    done
}

/// The lines of `p`, split at each `\n` or `\r\n`.
fn split_lines(p: &Vec<char>) -> (r: Vec<Vec<char>>)
    ensures
        views(r@) == source_lines(p@),
{
    let mut done: Vec<Vec<char>> = Vec::new();
    let mut cur: Vec<char> = Vec::new();
    let mut i: usize = 0;
    assert(views(done@) =~= seq![]);
    assert(p@.subrange(0, p@.len() as int) =~= p@);
    while i < p.len()
        invariant
            i <= p@.len(),
            split_go(p@.subrange(i as int, p@.len() as int), cur@, views(done@)) == source_lines(
                p@,
            ),
        decreases p@.len() - i,
    {
        let ghost rest = p@.subrange(i as int, p@.len() as int);
        assert(rest.drop_first() =~= p@.subrange(i + 1, p@.len() as int));
        let c = p[i];
        if c == '\n' {
            let ghost old_done = done@;
            let ghost old_cur = cur@;
            if cur.len() > 0 && cur[cur.len() - 1] == '\r' {
                cur.pop();
                assert(cur@ =~= without_cr(old_cur));
            }
            let ghost line = cur@;
            done.push(cur);
            assert(views(done@) =~= views(old_done).push(line));
            cur = Vec::new();
            assert(cur@ =~= seq![]);
        } else {
            cur.push(c);
        }
        i = i + 1;
    }
    let ghost old_done = done@;
    let ghost old_cur = cur@;
    assert(p@.subrange(p@.len() as int, p@.len() as int) =~= seq![]);
    done.push(cur);
    assert(views(done@) =~= views(old_done).push(old_cur));
    done
}

fn same_chars(a: &Vec<char>, b: &Vec<char>) -> (r: bool)
    ensures
        r == (a@ == b@),
{
    if a.len() != b.len() {
        return false;
    }
    let mut i: usize = 0;
    while i < a.len()
        invariant
            i <= a@.len() == b@.len(),
            forall|k: int| 0 <= k < i ==> a@[k] == b@[k],
        decreases a@.len() - i,
    {
        if a[i] != b[i] {
            return false;
        }
        i = i + 1;
    }
    assert(a@ =~= b@);
    true
}

/// Whether the new lines leave the source lines as they are.
fn lines_unchanged(lines: &Vec<Vec<char>>, src: &Vec<Vec<char>>) -> (r: bool)
    ensures
        r == unchanged(views(lines@), views(src@)),
{
    if lines.len() > src.len() {
        assert(views(lines@).len() > views(src@).len());
        return false;
    }
    let mut i: usize = 0;
    while i < lines.len()
        invariant
            lines@.len() <= src@.len(),
            i <= lines@.len(),
            forall|k: int| 0 <= k < i ==> #[trigger] views(lines@)[k] == views(src@)[k],
        decreases lines@.len() - i,
    {
        assert(views(src@)[i as int] == src@[i as int]@);
        assert(views(lines@)[i as int] == lines@[i as int]@);
        if !same_chars(&lines[i], &src[i]) {
            return false;
        }
        i = i + 1;
    }
    true
}

/// Reflows the paragraph `range` of the characters `s`: `None` where it has no
/// word or where the greedy layout at `max_line_width` leaves its lines as they are.
pub fn reflow_paragraph(
    s: &Vec<char>,
    range: Range,
    unbreakables: &Vec<Range>,
    indentations: &Vec<usize>,
    max_line_width: usize,
    variant: &CommentVariant,
) -> (r: Option<String>)
    requires
        range.start <= range.end <= s@.len(),
        indentations@.len() > 0,
    ensures
        opt_view(r) == reflow_result(
            s@.subrange(range.start as int, range.end as int),
            unbreakables@,
            range.start as int,
            indentations@,
            max_line_width as int,
            *variant,
        ),
{
    let p = copy_range(s, range.start, range.end);
    let ws = split_runs(&p, true);
    let units = paragraph_units(&p, &ws, unbreakables, range.start);
    let lines = layout_lines(&units, max_line_width, indentations);
    let src = split_lines(&p);
    assert(views(lines@).len() == lines@.len());
    if lines.len() == 0 || lines_unchanged(&lines, &src) {
        return None;
    }
    let text = render_lines(&lines, indentations, variant);
    let r = string_of(&text);
    Some(r)
}

/// Reflows the paragraph `range` of the chunk text `s` to `max_line_width`
/// characters, keeping each unbreakable range on one line. Line `i` of the
/// result is indented by `indentations[i]` (the last entry once they run out)
/// less the prefix length of `variant`, and decorated for `variant`; the first
/// line carries no indentation or prefix. `None` where the paragraph has no
/// word or each line of the new layout is identical to the source line at
/// its index.
pub fn reflow_inner(
    s: &str,
    range: Range,
    unbreakable_ranges: &Vec<Range>,
    indentations: &Vec<usize>,
    max_line_width: usize,
    variant: &CommentVariant,
) -> (r: Option<String>)
    requires
        range.start <= range.end <= s@.len(),
        indentations@.len() > 0,
    ensures
        opt_view(r) == reflow_result(
            s@.subrange(range.start as int, range.end as int),
            unbreakable_ranges@,
            range.start as int,
            indentations@,
            max_line_width as int,
            *variant,
        ),
{
    let chars = chars_of(s);
    reflow_paragraph(&chars, range, unbreakable_ranges, indentations, max_line_width, variant)
}

} // verus!
