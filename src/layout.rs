//! Greedy line filling over atomic units, and rendering of the filled lines
//! with comment decoration.

use vstd::prelude::*;

use crate::chunk::{prefix_len_of, prefix_of, suffix_of, CommentVariant};
use crate::text::push_all;

verus! {

pub open spec fn views(v: Seq<Vec<char>>) -> Seq<Seq<char>> {
    v.map_values(|u: Vec<char>| u@)
}

/// The indentation of output line `k`: its own entry, or the last one once they run out.
pub open spec fn indent_at(ind: Seq<usize>, k: int) -> int {
    if k < ind.len() {
        ind[k] as int
    } else {
        ind.last() as int
    }
}

/// Greedy filling continued from the partly filled line `cur`, after the
/// closed lines `done`: a unit joins the current line, after one space, while
/// indentation plus the line's length stays within `max`.
pub open spec fn fill(
    units: Seq<Seq<char>>,
    cur: Seq<char>,
    done: Seq<Seq<char>>,
    max: int,
    ind: Seq<usize>,
) -> Seq<Seq<char>>
    decreases units.len(),
{
    if units.len() == 0 {
        done.push(cur)
    } else if indent_at(ind, done.len() as int) + cur.len() + 1 + units[0].len() <= max {
        fill(units.drop_first(), cur + seq![' '] + units[0], done, max, ind)
    } else {
        fill(units.drop_first(), units[0], done.push(cur), max, ind)
    }
}

/// The lines of the greedy layout of `units`: none for no unit.
pub open spec fn layout(units: Seq<Seq<char>>, max: int, ind: Seq<usize>) -> Seq<Seq<char>> {
    if units.len() == 0 {
        seq![]
    } else {
        fill(units.drop_first(), units[0], seq![], max, ind)
    }
}

pub open spec fn spaces(n: int) -> Seq<char> {
    Seq::new(if n > 0 { n as nat } else { 0 }, |_i: int| ' ')
}

/// What precedes the text of continued line `k`: indentation less the
/// variant's prefix length, then the prefix.
pub open spec fn decoration(v: CommentVariant, ind: Seq<usize>, k: int) -> Seq<char> {
    spaces(indent_at(ind, k) - prefix_len_of(v)) + prefix_of(v)
}

/// The lines joined into one replacement: the first without decoration,
/// each line break preceded by the variant's suffix.
pub open spec fn render(lines: Seq<Seq<char>>, ind: Seq<usize>, v: CommentVariant) -> Seq<char>
    decreases lines.len(),
{
    if lines.len() == 0 {
        seq![]
    } else if lines.len() == 1 {
        lines[0]
    } else {
        render(lines.drop_last(), ind, v) + suffix_of(v) + seq!['\n'] + decoration(
            v,
            ind,
            lines.len() - 1,
        ) + lines.last()
    }
}

/// Copies a character vector.
pub(crate) fn copy_chars(src: &Vec<char>) -> (r: Vec<char>)
    ensures
        r@ == src@,
{
    let mut r: Vec<char> = Vec::new();
    push_all(&mut r, src);
    r
}

fn indent_of(ind: &Vec<usize>, k: usize) -> (r: usize)
    requires
        ind@.len() > 0,
    ensures
        r == indent_at(ind@, k as int),
{
    if k < ind.len() {
        ind[k]
    } else {
        ind[ind.len() - 1]
    }
}

/// Fills lines greedily with the units, never splitting one.
pub fn layout_lines(units: &Vec<Vec<char>>, max: usize, ind: &Vec<usize>) -> (r: Vec<Vec<char>>)
    requires
        ind@.len() > 0,
    ensures
        views(r@) == layout(views(units@), max as int, ind@),
{
    let n = units.len();
    if n == 0 {
        let r: Vec<Vec<char>> = Vec::new();
        assert(views(r@) =~= seq![]);
        return r;
    }
    let ghost us = views(units@);
    let mut done: Vec<Vec<char>> = Vec::new();
    let mut cur = copy_chars(&units[0]);
    let mut i: usize = 1;
    assert(us.subrange(1, n as int) =~= us.drop_first());
    assert(views(done@) =~= seq![]);
    while i < n
        invariant
            n == units@.len(),
            us == views(units@),
            1 <= i <= n,
            ind@.len() > 0,
            fill(us.subrange(i as int, n as int), cur@, views(done@), max as int, ind@) == layout(
                us,
                max as int,
                ind@,
            ),
        decreases n - i,
    {
        let ghost rest = us.subrange(i as int, n as int);
        assert(rest.drop_first() =~= us.subrange(i + 1, n as int));
        assert(rest[0] == units@[i as int]@);
        let w = &units[i];
        let indent = indent_of(ind, done.len());
        proof {
            assert(views(done@).len() == done@.len());
        }
        let ghost old_cur = cur@;
        if indent <= max && cur.len() <= max - indent && w.len() < max - indent - cur.len() {
            cur.push(' ');
            push_all(&mut cur, w);
            assert(cur@ =~= old_cur + seq![' '] + rest[0]);
        } else {
            let ghost old_done = done@;
            done.push(cur);
            assert(views(done@) =~= views(old_done).push(views(done@).last()));
            cur = copy_chars(w);
        }
        i = i + 1;
    }
    let ghost old_done = done@;
    done.push(cur);
    assert(views(done@) =~= views(old_done).push(views(done@).last()));
    assert(us.subrange(n as int, n as int) =~= seq![]);
    done
}

fn push_spaces(v: &mut Vec<char>, n: usize)
    ensures
        final(v)@ == old(v)@ + spaces(n as int),
{
    let mut i: usize = 0;
    while i < n
        invariant
            i <= n,
            v@ == old(v)@ + spaces(i as int),
        decreases n - i,
    {
        v.push(' ');
        i = i + 1;
        assert(spaces(i as int) =~= spaces(i - 1 as int).push(' '));
    }
}

/// Joins the lines into one replacement text, decorated for `variant`.
pub fn render_lines(lines: &Vec<Vec<char>>, ind: &Vec<usize>, variant: &CommentVariant) -> (r: Vec<
    char,
>)
    requires
        ind@.len() > 0,
    ensures
        r@ == render(views(lines@), ind@, *variant),
{
    let n = lines.len();
    if n == 0 {
        return Vec::new();
    }
    let ghost ls = views(lines@);
    let prefix = variant.prefix_chars();
    let suffix = variant.suffix_chars();
    let plen = variant.prefix_len();
    let mut acc = copy_chars(&lines[0]);
    let mut i: usize = 1;
    assert(ls.subrange(0, 1).len() == 1);
    while i < n
        invariant
            n == lines@.len(),
            ls == views(lines@),
            1 <= i <= n,
            ind@.len() > 0,
            prefix@ == prefix_of(*variant),
            suffix@ == suffix_of(*variant),
            plen as int == if prefix_len_of(*variant) <= usize::MAX {
                prefix_len_of(*variant)
            } else {
                usize::MAX as int
            },
            acc@ == render(ls.subrange(0, i as int), ind@, *variant),
        decreases n - i,
    {
        let ghost before = acc@;
        push_all(&mut acc, &suffix);
        acc.push('\n');
        let indent = indent_of(ind, i);
        let pad = if indent > plen {
            indent - plen
        } else {
            0
        };
        push_spaces(&mut acc, pad);
        push_all(&mut acc, &prefix);
        push_all(&mut acc, &lines[i]);
        proof {
            let sub = ls.subrange(0, i + 1 as int);
            assert(sub.drop_last() =~= ls.subrange(0, i as int));
            assert(spaces(pad as int) =~= spaces(indent_at(ind@, i as int) - prefix_len_of(*variant)));
            assert(acc@ =~= render(sub, ind@, *variant));
        }
        i = i + 1;
    }
    assert(ls.subrange(0, n as int) =~= ls);
    acc
}

} // verus!
