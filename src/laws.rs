//! Properties that relate several functions of the library, proved over
//! their specifications.

use vstd::prelude::*;

use crate::checker::{check_spec, chunks_spec, doc_spec};
use crate::chunk::{Chunk, Fragment};
use crate::markup::{classify_all, in_chars, markup_events_of, MarkupEvent};
use crate::reflow::{chunk_spec, scan_events, store_spec};
use crate::suggestion::ContentOrigin;
use crate::checker::DocEntry;
use crate::checker::Config;
use crate::layout::{fill, indent_at, layout};
use crate::paragraph::{reflow_result, source_lines, unchanged, units_of};
use crate::chunk::CommentVariant;
use crate::span::Range;
use crate::suggestion::{insert_pos, is_sorted, key_le, key_lt, sort_spec, SuggestionView};
use crate::tokenize::{is_ignored, runs_spec, scan};

verus! {

/// The characters of `s` that are neither whitespace nor delimiters, in order.
pub open spec fn kept(s: Seq<char>) -> Seq<char>
    decreases s.len(),
{
    if s.len() == 0 {
        seq![]
    } else {
        (if is_ignored(s[0]) {
            seq![]
        } else {
            seq![s[0]]
        }) + kept(s.drop_first())
    }
}

/// The text of the ranges of `s`, one after another.
pub open spec fn pieces(s: Seq<char>, rs: Seq<Range>) -> Seq<char>
    decreases rs.len(),
{
    if rs.len() == 0 {
        seq![]
    } else {
        pieces(s, rs.drop_last()) + s.subrange(rs.last().start as int, rs.last().end as int)
    }
}

proof fn lemma_scan_pieces(s: Seq<char>, i: int, started: bool, start: int, out: Seq<Range>)
    requires
        s.len() <= usize::MAX,
        0 <= i <= s.len(),
        started ==> 0 <= start < i,
        started ==> forall|k: int| start <= k < i ==> !is_ignored(#[trigger] s[k]),
        forall|j: int| 0 <= j < out.len() ==> (#[trigger] out[j]).start < out[j].end,
    ensures
        pieces(s, scan(false, s, i, started, start, out)) == pieces(s, out) + (if started {
            s.subrange(start, i)
        } else {
            seq![]
        }) + kept(s.subrange(i, s.len() as int)),
        forall|j: int|
            0 <= j < scan(false, s, i, started, start, out).len() ==> (#[trigger] scan(
                false,
                s,
                i,
                started,
                start,
                out,
            )[j]).start < scan(false, s, i, started, start, out)[j].end,
    decreases s.len() - i,
{
    let rest = s.subrange(i, s.len() as int);
    if i >= s.len() {
        assert(rest =~= seq![]);
        if started {
            let r = Range { start: start as usize, end: s.len() as usize };
            assert(out.push(r).drop_last() =~= out);
        }
        let res = scan(false, s, i, started, start, out);
        assert(pieces(s, res) =~= pieces(s, out) + (if started {
            s.subrange(start, i)
        } else {
            seq![]
        }) + kept(rest));
    } else {
        assert(rest.drop_first() =~= s.subrange(i + 1, s.len() as int));
        if is_ignored(s[i]) {
            let out2 = if started {
                out.push(Range { start: start as usize, end: i as usize })
            } else {
                out
            };
            if started {
                assert(out2.drop_last() =~= out);
            }
            lemma_scan_pieces(s, i + 1, false, start, out2);
            assert(kept(rest) =~= kept(rest.drop_first()));
        } else if !started {
            lemma_scan_pieces(s, i + 1, true, i, out);
            assert(s.subrange(i, i + 1) =~= seq![s[i]]);
            assert(kept(rest) =~= seq![s[i]] + kept(rest.drop_first()));
        } else {
            lemma_scan_pieces(s, i + 1, true, start, out);
            assert(s.subrange(start, i + 1) =~= s.subrange(start, i) + seq![s[i]]);
            assert(kept(rest) =~= seq![s[i]] + kept(rest.drop_first()));
        }
    }
}

/// Tokenizing loses nothing but the ignored characters: the tokens' text, one
/// after another, is exactly the text with all whitespace and delimiters
/// taken out, so the last word is never dropped; and no token is empty.
pub proof fn tokens_reassemble_text(s: Seq<char>)
    requires
        s.len() <= usize::MAX,
    ensures
        pieces(s, runs_spec(false, s)) == kept(s),
        forall|j: int|
            0 <= j < runs_spec(false, s).len() ==> (#[trigger] runs_spec(false, s)[j]).start
                < runs_spec(false, s)[j].end,
{
    lemma_scan_pieces(s, 0, false, 0, seq![]);
    assert(s.subrange(0, s.len() as int) =~= s);
    assert(pieces(s, seq![]) + seq![] + kept(s) =~= kept(s));
}

/// A paragraph whose lines already read as its greedy layout at the given
/// width gets no replacement.
pub proof fn settled_paragraph_is_kept(
    p: Seq<char>,
    ub: Seq<Range>,
    off: int,
    ind: Seq<usize>,
    max: int,
    v: CommentVariant,
)
    requires
        unchanged(layout(units_of(p, runs_spec(true, p), ub, off), max, ind), source_lines(p)),
    ensures
        reflow_result(p, ub, off, ind, max, v) is None,
{
}

/// Units joined by single spaces.
pub open spec fn join_units(us: Seq<Seq<char>>) -> Seq<char>
    decreases us.len(),
{
    if us.len() == 0 {
        seq![]
    } else if us.len() == 1 {
        us[0]
    } else {
        join_units(us.drop_last()) + seq![' '] + us.last()
    }
}

/// The groups of units that the greedy filling puts on each line.
pub open spec fn fill_groups(
    units: Seq<Seq<char>>,
    cur: Seq<Seq<char>>,
    done: Seq<Seq<Seq<char>>>,
    max: int,
    ind: Seq<usize>,
) -> Seq<Seq<Seq<char>>>
    decreases units.len(),
{
    if units.len() == 0 {
        done.push(cur)
    } else if indent_at(ind, done.len() as int) + join_units(cur).len() + 1 + units[0].len()
        <= max {
        fill_groups(units.drop_first(), cur.push(units[0]), done, max, ind)
    } else {
        fill_groups(units.drop_first(), seq![units[0]], done.push(cur), max, ind)
    }
}

pub open spec fn flatten_groups(gs: Seq<Seq<Seq<char>>>) -> Seq<Seq<char>>
    decreases gs.len(),
{
    if gs.len() == 0 {
        seq![]
    } else {
        flatten_groups(gs.drop_last()) + gs.last()
    }
}

proof fn lemma_fill_groups(
    units: Seq<Seq<char>>,
    cur: Seq<char>,
    curg: Seq<Seq<char>>,
    done: Seq<Seq<char>>,
    doneg: Seq<Seq<Seq<char>>>,
    max: int,
    ind: Seq<usize>,
)
    requires
        curg.len() > 0,
        cur == join_units(curg),
        done.len() == doneg.len(),
        forall|k: int| 0 <= k < done.len() ==> #[trigger] done[k] == join_units(doneg[k]),
        forall|k: int| 0 <= k < doneg.len() ==> (#[trigger] doneg[k]).len() > 0,
        forall|k: int|
            0 <= k < doneg.len() ==> (#[trigger] doneg[k]).len() == 1 || indent_at(ind, k)
                + done[k].len() <= max,
        curg.len() == 1 || indent_at(ind, done.len() as int) + cur.len() <= max,
    ensures
        ({
            let gs = fill_groups(units, curg, doneg, max, ind);
            let ls = fill(units, cur, done, max, ind);
            &&& gs.len() == ls.len()
            &&& forall|k: int| 0 <= k < gs.len() ==> #[trigger] ls[k] == join_units(gs[k])
            &&& forall|k: int| 0 <= k < gs.len() ==> (#[trigger] gs[k]).len() > 0
            &&& flatten_groups(gs) == flatten_groups(doneg) + curg + units
            &&& forall|k: int|
                0 <= k < gs.len() ==> (#[trigger] gs[k]).len() == 1 || indent_at(ind, k)
                    + ls[k].len() <= max
        }),
    decreases units.len(),
{
    if units.len() == 0 {
        let gs = doneg.push(curg);
        assert(gs.drop_last() =~= doneg);
        assert(flatten_groups(doneg) + curg + units =~= flatten_groups(doneg) + curg);
    } else if indent_at(ind, done.len() as int) + cur.len() + 1 + units[0].len() <= max {
        let c2 = curg.push(units[0]);
        assert(c2.drop_last() =~= curg);
        lemma_fill_groups(units.drop_first(), cur + seq![' '] + units[0], c2, done, doneg, max, ind);
        assert(flatten_groups(doneg) + c2 + units.drop_first() =~= flatten_groups(doneg) + curg
            + units);
    } else {
        let d2 = doneg.push(curg);
        assert(d2.drop_last() =~= doneg);
        lemma_fill_groups(
            units.drop_first(),
            units[0],
            seq![units[0]],
            done.push(cur),
            d2,
            max,
            ind,
        );
        assert(flatten_groups(d2) + seq![units[0]] + units.drop_first() =~= flatten_groups(doneg)
            + curg + units);
    }
}

/// No line of the layout splits a unit, where each unbreakable construct
/// lies inside one unit: the layout groups the units, in order and each one
/// whole, into non-empty runs, and each line is the units of its run joined
/// by single spaces.
pub proof fn layout_keeps_units_whole(units: Seq<Seq<char>>, max: int, ind: Seq<usize>)
    requires
        units.len() > 0,
    ensures
        ({
            let gs = fill_groups(units.drop_first(), seq![units[0]], seq![], max, ind);
            let ls = layout(units, max, ind);
            &&& gs.len() == ls.len()
            &&& forall|k: int| 0 <= k < gs.len() ==> #[trigger] ls[k] == join_units(gs[k])
            &&& forall|k: int| 0 <= k < gs.len() ==> (#[trigger] gs[k]).len() > 0
            &&& flatten_groups(gs) == units
        }),
{
    lemma_fill_groups(units.drop_first(), units[0], seq![units[0]], seq![], seq![], max, ind);
    assert(flatten_groups(seq![]) + seq![units[0]] + units.drop_first() =~= units);
}

/// Every line of the layout fits the width, indentation included, unless it
/// holds a single unit that is too long by itself.
pub proof fn layout_lines_fit(units: Seq<Seq<char>>, max: int, ind: Seq<usize>)
    requires
        units.len() > 0,
    ensures
        ({
            let gs = fill_groups(units.drop_first(), seq![units[0]], seq![], max, ind);
            let ls = layout(units, max, ind);
            &&& gs.len() == ls.len()
            &&& forall|k: int| 0 <= k < gs.len() ==> #[trigger] ls[k] == join_units(gs[k])
            &&& forall|k: int|
                0 <= k < gs.len() ==> (#[trigger] gs[k]).len() == 1 || indent_at(ind, k)
                    + ls[k].len() <= max
        }),
{
    lemma_fill_groups(units.drop_first(), units[0], seq![units[0]], seq![], seq![], max, ind);
}

/// Every paragraph of the chunk text `text` is settled: whatever range and
/// unbreakable ranges it is given, reflow proposes nothing.
pub open spec fn all_settled(
    text: Seq<char>,
    v: CommentVariant,
    m: Seq<Fragment>,
    origin: ContentOrigin,
    max: usize,
) -> bool {
    forall|p: usize, e: usize, ub: Seq<Range>|
        p <= e <= text.len() ==> #[trigger] store_spec(text, v, m, origin, p, e, ub, max) is Err
}

/// A scan over a chunk whose paragraphs are all settled finds nothing.
pub proof fn settled_scan_finds_nothing(
    evs: Seq<MarkupEvent>,
    text: Seq<char>,
    v: CommentVariant,
    m: Seq<Fragment>,
    origin: ContentOrigin,
    max: usize,
)
    requires
        all_settled(text, v, m, origin, max),
    ensures
        scan_events(evs, text, v, m, origin, max).found.len() == 0,
    decreases evs.len(),
{
    if evs.len() > 0 {
        settled_scan_finds_nothing(evs.drop_last(), text, v, m, origin, max);
        let st = scan_events(evs.drop_last(), text, v, m, origin, max);
        let e = evs.last();
        assert(store_spec(text, v, m, origin, st.paragraph, e.start, st.unbreakables, max) is Err
            || !(st.paragraph <= e.start <= text.len()));
        assert(store_spec(text, v, m, origin, st.paragraph, e.end, st.unbreakables, max) is Err
            || !(st.paragraph <= e.end <= text.len()));
    }
}

/// Every chunk of the file is settled.
pub open spec fn chunks_settled(chunks: Seq<Chunk>, origin: ContentOrigin, max: usize) -> bool {
    forall|k: int|
        0 <= k < chunks.len() ==> all_settled(
            (#[trigger] chunks[k]).text_view(),
            chunks[k].variant_view(),
            chunks[k].mapping_view(),
            origin,
            max,
        )
}

proof fn lemma_chunks_settled(chunks: Seq<Chunk>, origin: ContentOrigin, max: usize)
    requires
        chunks_settled(chunks, origin, max),
    ensures
        chunks_spec(chunks, origin, max).len() == 0,
    decreases chunks.len(),
{
    if chunks.len() > 0 {
        let c = chunks.last();
        assert(chunks_settled(chunks.drop_last(), origin, max)) by {
            assert forall|k: int| 0 <= k < chunks.drop_last().len() implies all_settled(
                (#[trigger] chunks.drop_last()[k]).text_view(),
                chunks.drop_last()[k].variant_view(),
                chunks.drop_last()[k].mapping_view(),
                origin,
                max,
            ) by {
                assert(chunks.drop_last()[k] == chunks[k]);
            }
        }
        lemma_chunks_settled(chunks.drop_last(), origin, max);
        assert(all_settled(c.text_view(), c.variant_view(), c.mapping_view(), origin, max));
        let text = c.text_view();
        settled_scan_finds_nothing(
            in_chars(text, classify_all(markup_events_of(text))),
            text,
            c.variant_view(),
            c.mapping_view(),
            origin,
            max,
        );
        assert(chunk_spec(c, origin, max).len() == 0);
    }
}

/// A document whose paragraphs are all already wrapped at the width gets no
/// reflow suggestion: the reflow checker's result is empty.
pub proof fn settled_document_yields_nothing(entries: Seq<DocEntry>, max: usize)
    requires
        forall|i: int|
            0 <= i < entries.len() ==> chunks_settled(
                (#[trigger] entries[i]).chunks@,
                entries[i].origin,
                max,
            ),
    ensures
        doc_spec(entries, max).len() == 0,
    decreases entries.len(),
{
    if entries.len() > 0 {
        let init = entries.drop_last();
        assert forall|i: int| 0 <= i < init.len() implies chunks_settled(
            (#[trigger] init[i]).chunks@,
            init[i].origin,
            max,
        ) by {
            assert(init[i] == entries[i]);
        }
        settled_document_yields_nothing(init, max);
        let last = entries.last();
        assert(chunks_settled(last.chunks@, last.origin, max));
        lemma_chunks_settled(last.chunks@, last.origin, max);
    }
}

/// `s` is the reflow suggestion of some paragraph `[p, e)` of the chunk.
pub open spec fn from_paragraph(
    s: SuggestionView,
    text: Seq<char>,
    v: CommentVariant,
    m: Seq<Fragment>,
    origin: ContentOrigin,
    max: usize,
) -> bool {
    exists|p: usize, e: usize, ub: Seq<Range>|
        p <= e <= text.len() && #[trigger] store_spec(text, v, m, origin, p, e, ub, max) == Ok::<
            (SuggestionView, usize),
            usize,
        >((s, e))
}

/// Each suggestion a scan finds is the reflow of one paragraph of the chunk:
/// its replacement is the layout of that paragraph's units, so the width and
/// unit laws of the layout hold of it.
pub proof fn scan_suggestions_are_paragraph_reflows(
    evs: Seq<MarkupEvent>,
    text: Seq<char>,
    v: CommentVariant,
    m: Seq<Fragment>,
    origin: ContentOrigin,
    max: usize,
)
    ensures
        forall|k: int|
            0 <= k < scan_events(evs, text, v, m, origin, max).found.len() ==> from_paragraph(
                #[trigger] scan_events(evs, text, v, m, origin, max).found[k],
                text,
                v,
                m,
                origin,
                max,
            ),
    decreases evs.len(),
{
    if evs.len() > 0 {
        scan_suggestions_are_paragraph_reflows(evs.drop_last(), text, v, m, origin, max);
        let st = scan_events(evs.drop_last(), text, v, m, origin, max);
        let found = scan_events(evs, text, v, m, origin, max).found;
        let ev = evs.last();
        assert forall|k: int| 0 <= k < found.len() implies from_paragraph(
            #[trigger] found[k],
            text,
            v,
            m,
            origin,
            max,
        ) by {
            if k < st.found.len() {
                assert(found[k] == st.found[k]);
            } else {
                let a = store_spec(text, v, m, origin, st.paragraph, ev.start, st.unbreakables, max);
                let b = store_spec(text, v, m, origin, st.paragraph, ev.end, st.unbreakables, max);
                if st.paragraph <= ev.start <= text.len() && a is Ok && found[k] == a->Ok_0.0 && a->Ok_0.1 == ev.start {
                    assert(a == Ok::<(SuggestionView, usize), usize>((found[k], ev.start)));
                } else {
                    assert(b == Ok::<(SuggestionView, usize), usize>((found[k], ev.end)));
                }
            }
        }
    }
}

/// Merging two suggestion sets keeps every suggestion of both, duplicates
/// included: the count of the merge is the sum of the counts.
pub proof fn merge_keeps_all(a: Seq<SuggestionView>, b: Seq<SuggestionView>)
    ensures
        (a + b).len() == a.len() + b.len(),
        (a + b).to_multiset() == a.to_multiset().add(b.to_multiset()),
{
    vstd::seq_lib::lemma_multiset_commutative(a, b);
}

/// A dispatch pass is a function of the document and the configuration:
/// run twice on the same input it gives the same ordered suggestions.
pub proof fn dispatch_is_reproducible(
    e1: Seq<DocEntry>,
    e2: Seq<DocEntry>,
    c1: Config,
    c2: Config,
)
    requires
        e1 == e2,
        c1 == c2,
    ensures
        check_spec(e1, c1) == check_spec(e2, c2),
{
}

proof fn lemma_insert_pos_at_end(s: Seq<SuggestionView>, x: SuggestionView)
    requires
        forall|j: int| 0 <= j < s.len() ==> key_le(#[trigger] s[j], x),
    ensures
        insert_pos(s, x) == s.len(),
    decreases s.len(),
{
    if s.len() > 0 {
        lemma_insert_pos_at_end(s.drop_first(), x);
    }
}

/// Sorting is stable: suggestions already in canonical order keep their order.
pub proof fn sort_keeps_sorted(s: Seq<SuggestionView>)
    requires
        is_sorted(s),
    ensures
        sort_spec(s) == s,
    decreases s.len(),
{
    if s.len() > 0 {
        let init = s.drop_last();
        assert(is_sorted(init));
        sort_keeps_sorted(init);
        lemma_insert_pos_at_end(init, s.last());
        assert(init.insert(init.len() as int, s.last()) =~= s);
    }
}

} // verus!
