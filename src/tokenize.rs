//! Splitting chunk text into word-like ranges.

use vstd::prelude::*;

use crate::span::Range;
use crate::text::chars_of;

verus! {

/// Characters with the Unicode `White_Space` property.
pub open spec fn is_white(c: char) -> bool {
    ('\t' <= c && c <= '\r') || c == ' ' || c == '\u{85}' || c == '\u{a0}' || c == '\u{1680}'
        || ('\u{2000}' <= c && c <= '\u{200a}') || c == '\u{2028}' || c == '\u{2029}'
        || c == '\u{202f}' || c == '\u{205f}' || c == '\u{3000}'
}

/// Punctuation that delimits tokens besides whitespace.
pub open spec fn is_delimiter(c: char) -> bool {
    c == '"' || c == ';' || c == ':' || c == ',' || c == '.' || c == '?' || c == '!' || c == '#'
        || c == '(' || c == ')' || c == '{' || c == '}' || c == '[' || c == ']' || c == '-'
        || c == '\n' || c == '\r' || c == '/' || c == '`'
}

pub open spec fn is_ignored(c: char) -> bool {
    is_white(c) || is_delimiter(c)
}

/// Separator of runs: whitespace alone for words, all ignored characters for tokens.
pub open spec fn is_sep(words: bool, c: char) -> bool {
    if words {
        is_white(c)
    } else {
        is_ignored(c)
    }
}

/// `r` is a maximal non-empty run of non-separator characters of `s`.
pub open spec fn is_run(words: bool, s: Seq<char>, r: Range) -> bool {
    &&& r.start < r.end <= s.len()
    &&& forall|k: int| r.start <= k < r.end ==> !is_sep(words, #[trigger] s[k])
    &&& (r.start == 0 || is_sep(words, s[r.start - 1]))
    &&& (r.end == s.len() || is_sep(words, s[r.end as int]))
}

/// Offset `k` lies inside one of the ranges.
pub open spec fn covered(rs: Seq<Range>, k: int) -> bool {
    exists|j: int| 0 <= j < rs.len() && (#[trigger] rs[j]).contains_offset(k)
}

/// The ranges are exactly the maximal runs of `s`, in order.
pub open spec fn runs_of(words: bool, s: Seq<char>, rs: Seq<Range>) -> bool {
    &&& forall|j: int| 0 <= j < rs.len() ==> is_run(words, s, #[trigger] rs[j])
    &&& forall|j: int| 0 <= j < rs.len() - 1 ==> (#[trigger] rs[j]).end < rs[j + 1].start
    &&& forall|k: int| 0 <= k < s.len() && !is_sep(words, s[k]) ==> #[trigger] covered(rs, k)
}

/// The ranges are exactly the tokens of `s`, in order.
pub open spec fn tokens_of(s: Seq<char>, rs: Seq<Range>) -> bool {
    runs_of(false, s, rs)
}

/// The ranges are exactly the whitespace-separated words of `s`, in order.
pub open spec fn words_of(s: Seq<char>, rs: Seq<Range>) -> bool {
    runs_of(true, s, rs)
}

/// The left-to-right scan that yields the runs: continued at `i`, inside a
/// run opened at `start` when `started`, after the runs `out`.
pub open spec fn scan(
    words: bool,
    s: Seq<char>,
    i: int,
    started: bool,
    start: int,
    out: Seq<Range>,
) -> Seq<Range>
    decreases s.len() - i,
{
    if i >= s.len() || i < 0 {
        if started {
            out.push(Range { start: start as usize, end: s.len() as usize })
        } else {
            out
        }
    } else if is_sep(words, s[i]) {
        scan(
            words,
            s,
            i + 1,
            false,
            start,
            if started {
                out.push(Range { start: start as usize, end: i as usize })
            } else {
                out
            },
        )
    } else if !started {
        scan(words, s, i + 1, true, i, out)
    } else {
        scan(words, s, i + 1, true, start, out)
    }
}

/// The runs of `s`: whitespace-separated words when `words`, else tokens.
pub open spec fn runs_spec(words: bool, s: Seq<char>) -> Seq<Range> {
    scan(words, s, 0, false, 0, seq![])
}

/// Whether `c` is Unicode whitespace.
pub fn is_whitespace(c: char) -> (r: bool)
    ensures
        r == is_white(c),
{
    ('\t' <= c && c <= '\r') || c == ' ' || c == '\u{85}' || c == '\u{a0}' || c == '\u{1680}'
        || ('\u{2000}' <= c && c <= '\u{200a}') || c == '\u{2028}' || c == '\u{2029}'
        || c == '\u{202f}' || c == '\u{205f}' || c == '\u{3000}'
}

/// Whether `c` separates tokens.
pub fn is_ignore_char(c: char) -> (r: bool)
    ensures
        r == is_ignored(c),
{
    is_whitespace(c) || c == '"' || c == ';' || c == ':' || c == ',' || c == '.' || c == '?'
        || c == '!' || c == '#' || c == '(' || c == ')' || c == '{' || c == '}' || c == '['
        || c == ']' || c == '-' || c == '\n' || c == '\r' || c == '/' || c == '`'
}

proof fn lemma_covered_push(rs: Seq<Range>, x: Range, k: int)
    requires
        covered(rs, k),
    ensures
        covered(rs.push(x), k),
{
    let j = choose|j: int| 0 <= j < rs.len() && (#[trigger] rs[j]).contains_offset(k);
    assert(rs.push(x)[j] == rs[j]);
}

/// The maximal runs of a character sequence: words when `words`, else tokens.
pub fn split_runs(s: &Vec<char>, words: bool) -> (r: Vec<Range>)
    ensures
        runs_of(words, s@, r@),
        r@ == runs_spec(words, s@),
{
    let mut started = false;
    let mut start: usize = 0;
    let mut out: Vec<Range> = Vec::new();
    let mut i: usize = 0;
    while i < s.len()
        invariant
            i <= s@.len(),
            start <= i,
            scan(words, s@, i as int, started, start as int, out@) == runs_spec(words, s@),
            forall|j: int| 0 <= j < out@.len() ==> is_run(words, s@, #[trigger] out@[j]),
            forall|j: int| 0 <= j < out@.len() ==> (#[trigger] out@[j]).end < i,
            forall|j: int| 0 <= j < out@.len() - 1 ==> (#[trigger] out@[j]).end < out@[j + 1].start,
            started ==> start < i,
            started ==> (forall|k: int| start <= k < i ==> !is_sep(words, #[trigger] s@[k])),
            started ==> (start == 0 || is_sep(words, s@[start - 1])),
            started ==> (forall|j: int| 0 <= j < out@.len() ==> (#[trigger] out@[j]).end < start),
            !started ==> (i == 0 || is_sep(words, s@[i - 1])),
            forall|k: int|
                0 <= k < i && !is_sep(words, s@[k]) ==> #[trigger] covered(out@, k) || (started
                    && start <= k),
        decreases s@.len() - i,
    {
        let c = s[i];
        let sep = if words {
            is_whitespace(c)
        } else {
            is_ignore_char(c)
        };
        if sep {
            if started {
                let ghost old_out = out@;
                let tok = Range { start, end: i };
                assert(is_run(words, s@, tok));
                out.push(tok);
                assert forall|k: int|
                    0 <= k < i + 1 && !is_sep(words, s@[k]) implies #[trigger] covered(out@, k) by {
                    if covered(old_out, k) {
                        lemma_covered_push(old_out, tok, k);
                    } else {
                        assert(out@[out@.len() - 1] == tok);
                    }
                }
            }
            started = false;
        } else if !started {
            start = i;
            started = true;
        }
        i = i + 1;
    }
    if started {
        let ghost old_out = out@;
        let tok = Range { start, end: i };
        assert(is_run(words, s@, tok));
        out.push(tok);
        assert forall|k: int| 0 <= k < s@.len() && !is_sep(words, s@[k]) implies #[trigger] covered(
            out@,
            k,
        ) by {
            if covered(old_out, k) {
                lemma_covered_push(old_out, tok, k);
            } else {
                assert(out@[out@.len() - 1] == tok);
            }
        }
    }
    out
}

/// Splits `s` into the ranges of its tokens: maximal runs of characters
/// that are neither whitespace nor one of `";:,.?!#(){}[]-\n\r/` and the
/// backtick. Offsets count characters; the last token is closed at the end.
pub fn tokenize(s: &str) -> (r: Vec<Range>)
    ensures
        tokens_of(s@, r@),
        r@ == runs_spec(false, s@),
{
    let chars = chars_of(s);
    split_runs(&chars, false)
}

} // verus!
