//! Suggestions and the canonically ordered set of them.

use vstd::prelude::*;

use crate::span::{Range, Span};

verus! {

broadcast use vstd::seq_lib::group_to_multiset_ensures;

/// The checker a suggestion comes from.
#[derive(Clone, Copy, Debug, PartialEq, Eq, Structural)]
pub enum Detector {
    Hunspell,
    LanguageTool,
    NlpRules,
    Reflow,
}

/// The identifier of the file a chunk was extracted from.
#[derive(Clone, Copy, Debug, PartialEq, Eq, Structural)]
pub struct ContentOrigin {
    pub id: usize,
}

/// One proposed change to the source.
#[derive(Clone, Debug)]
pub struct Suggestion {
    pub detector: Detector,
    pub origin: ContentOrigin,
    /// The chunk-relative range the change applies to.
    pub range: Range,
    /// The source region the range corresponds to.
    pub span: Span,
    pub replacements: Vec<String>,
    pub description: Option<String>,
}

/// What a suggestion says, as mathematical values.
pub struct SuggestionView {
    pub detector: Detector,
    pub origin: ContentOrigin,
    pub range: Range,
    pub span: Span,
    pub replacements: Seq<Seq<char>>,
    pub description: Option<Seq<char>>,
}

pub open spec fn opt_string_view(d: Option<String>) -> Option<Seq<char>> {
    match d {
        Some(s) => Some(s@),
        None => None,
    }
}

impl Suggestion {
    pub open spec fn view(self) -> SuggestionView {
        SuggestionView {
            detector: self.detector,
            origin: self.origin,
            range: self.range,
            span: self.span,
            replacements: self.replacements@.map_values(|r: String| r@),
            description: opt_string_view(self.description),
        }
    }
}

pub open spec fn vs(s: Seq<Suggestion>) -> Seq<SuggestionView> {
    s.map_values(|x: Suggestion| x.view())
}

/// Canonical order: by origin, then by the start of the span.
pub open spec fn key_le(a: SuggestionView, b: SuggestionView) -> bool {
    a.origin.id < b.origin.id || (a.origin.id == b.origin.id && (a.span.start.line
        < b.span.start.line || (a.span.start.line == b.span.start.line && a.span.start.column
        <= b.span.start.column)))
}

pub open spec fn key_lt(a: SuggestionView, b: SuggestionView) -> bool {
    !key_le(b, a)
}

pub open spec fn is_sorted(s: Seq<SuggestionView>) -> bool {
    forall|i: int, j: int| 0 <= i < j < s.len() ==> key_le(#[trigger] s[i], #[trigger] s[j])
}

/// Where `x` goes into `s`: after every suggestion not ordered after it.
pub open spec fn insert_pos(s: Seq<SuggestionView>, x: SuggestionView) -> int
    decreases s.len(),
{
    if s.len() == 0 {
        0
    } else if key_lt(x, s[0]) {
        0
    } else {
        1 + insert_pos(s.drop_first(), x)
    }
}

/// Stable insertion sort into canonical order.
pub open spec fn sort_spec(s: Seq<SuggestionView>) -> Seq<SuggestionView>
    decreases s.len(),
{
    if s.len() == 0 {
        s
    } else {
        let r = sort_spec(s.drop_last());
        r.insert(insert_pos(r, s.last()), s.last())
    }
}

proof fn lemma_insert_pos(s: Seq<SuggestionView>, x: SuggestionView)
    ensures
        0 <= insert_pos(s, x) <= s.len(),
        forall|j: int| 0 <= j < insert_pos(s, x) ==> !key_lt(x, #[trigger] s[j]),
        insert_pos(s, x) < s.len() ==> key_lt(x, s[insert_pos(s, x)]),
    decreases s.len(),
{
    if s.len() > 0 && !key_lt(x, s[0]) {
        lemma_insert_pos(s.drop_first(), x);
        assert forall|j: int| 0 <= j < insert_pos(s, x) implies !key_lt(x, #[trigger] s[j]) by {
            if j > 0 {
                assert(s[j] == s.drop_first()[j - 1]);
            }
        }
    }
}

/// Sorting orders the suggestions canonically and keeps exactly the same
/// suggestions, duplicates included.
pub proof fn sort_is_ordered_permutation(s: Seq<SuggestionView>)
    ensures
        is_sorted(sort_spec(s)),
        sort_spec(s).to_multiset() == s.to_multiset(),
        sort_spec(s).len() == s.len(),
    decreases s.len(),
{
    if s.len() > 0 {
        let r = sort_spec(s.drop_last());
        sort_is_ordered_permutation(s.drop_last());
        let x = s.last();
        let p = insert_pos(r, x);
        lemma_insert_pos(r, x);
        let t = r.insert(p, x);
        assert forall|i: int, j: int| 0 <= i < j < t.len() implies key_le(
            #[trigger] t[i],
            #[trigger] t[j],
        ) by {
            if j < p {
            } else if j == p {
            } else if i < p {
                assert(t[j] == r[j - 1]);
            } else if i == p {
                assert(key_le(r[p], r[j - 1]));
            } else {
            }
        }
        vstd::seq_lib::to_multiset_insert(r, p, x);
        vstd::seq_lib::to_multiset_build(s.drop_last(), x);
        assert(s.drop_last().push(x) == s);
    }
}

/// Sorts suggestions into canonical order, keeping the input order of
/// suggestions with equal keys.
pub fn sort_suggestions(items: Vec<Suggestion>) -> (r: Vec<Suggestion>)
    ensures
        vs(r@) == sort_spec(vs(items@)),
        is_sorted(vs(r@)),
        vs(r@).to_multiset() == vs(items@).to_multiset(),
{
    let ghost orig = vs(items@);
    let n = items.len();
    let mut rest = items;
    let mut out: Vec<Suggestion> = Vec::new();
    let mut i: usize = 0;
    assert(orig.subrange(0, 0) =~= seq![]);
    assert(vs(out@) =~= seq![]);
    assert(orig.subrange(0, n as int) =~= orig);
    while i < n
        invariant
            n == orig.len(),
            i <= n,
            vs(rest@) == orig.subrange(i as int, n as int),
            rest@.len() == n - i,
            vs(out@) == sort_spec(orig.subrange(0, i as int)),
        decreases n - i,
    {
        let ghost before = rest@;
        let x = rest.remove(0);
        assert(vs(rest@) =~= vs(before).remove(0));
        assert(vs(before)[0] == before[0].view());
        assert(x.view() == orig[i as int]);
        let ghost sub = orig.subrange(0, i + 1 as int);
        assert(sub.drop_last() =~= orig.subrange(0, i as int));
        assert(sub.last() == x.view());
        let ghost ov = vs(out@);
        let mut p: usize = 0;
        assert(ov.subrange(0, ov.len() as int) =~= ov);
        while p < out.len() && !(key_lt_exec(&x, &out[p]))
            invariant
                p <= out@.len(),
                ov == vs(out@),
                ov.len() == out@.len(),
                insert_pos(ov, x.view()) == p + insert_pos(
                    ov.subrange(p as int, ov.len() as int),
                    x.view(),
                ),
            decreases out@.len() - p,
        {
            let ghost tail = ov.subrange(p as int, ov.len() as int);
            assert(tail.drop_first() =~= ov.subrange(p + 1, ov.len() as int));
            assert(tail[0] == out@[p as int].view());
            p = p + 1;
        }
        proof {
            let tail = ov.subrange(p as int, ov.len() as int);
            if p < out@.len() {
                assert(tail[0] == out@[p as int].view());
            }
        }
        out.insert(p, x);
        assert(vs(out@) =~= ov.insert(p as int, x.view()));
        assert(vs(rest@) =~= orig.subrange(i + 1, n as int));
        i = i + 1;
    }
    proof {
        sort_is_ordered_permutation(orig);
    }
    out
}

fn key_lt_exec(a: &Suggestion, b: &Suggestion) -> (r: bool)
    ensures
        r == key_lt(a.view(), b.view()),
{
    let (x, y) = (&a.span.start, &b.span.start);
    a.origin.id < b.origin.id || (a.origin.id == b.origin.id && (x.line < y.line || (x.line
        == y.line && x.column < y.column)))
}

/// The suggestions of a dispatch pass.
#[derive(Debug)]
pub struct SuggestionSet {
    items: Vec<Suggestion>,
}

impl SuggestionSet {
    pub closed spec fn view(&self) -> Seq<SuggestionView> {
        vs(self.items@)
    }

    pub fn new() -> (r: SuggestionSet)
        ensures
            r.view() == Seq::<SuggestionView>::empty(),
    {
        SuggestionSet { items: Vec::new() }
    }

    /// A set holding the given suggestions, in the given order.
    pub fn from_suggestions(items: Vec<Suggestion>) -> (r: SuggestionSet)
        ensures
            r.view() == vs(items@),
    {
        SuggestionSet { items }
    }

    /// Adds suggestions at the end.
    pub fn extend(&mut self, items: Vec<Suggestion>)
        ensures
            final(self).view() == old(self).view() + vs(items@),
    {
        let mut items = items;
        let ghost (a, b) = (self.items@, items@);
        self.items.append(&mut items);
        assert(vs(a + b) =~= vs(a) + vs(b));
    }

    /// Takes all suggestions of `other` into this set, after its own.
    pub fn join(&mut self, other: SuggestionSet)
        ensures
            final(self).view() == old(self).view() + other.view(),
    {
        let mut other = other;
        let ghost (a, b) = (self.items@, other.items@);
        self.items.append(&mut other.items);
        assert(vs(a + b) =~= vs(a) + vs(b));
    }

    /// The number of suggestions over all origins.
    pub fn total_count(&self) -> (r: usize)
        ensures
            r == self.view().len(),
    {
        self.items.len()
    }

    /// Puts the suggestions into canonical order, by origin and then by span start.
    pub fn sort(&mut self)
        ensures
            final(self).view() == sort_spec(old(self).view()),
            is_sorted(final(self).view()),
            final(self).view().to_multiset() == old(self).view().to_multiset(),
    {
        let mut items: Vec<Suggestion> = Vec::new();
        items.append(&mut self.items);
        self.items = sort_suggestions(items);
    }

    pub fn suggestions(&self) -> (r: &Vec<Suggestion>)
        ensures
            vs(r@) == self.view(),
    {
        &self.items
    }
}

} // verus!
