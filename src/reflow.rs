//! The reflow checker: finds the paragraphs of each chunk and proposes
//! rewrapped text for those whose layout changes.

use vstd::prelude::*;

use crate::chunk::{covered_spans, Chunk, CommentVariant, Fragment};
use crate::markup::{
    classify_all, in_chars, is_unbreakable, markup_events, markup_events_of, unbreakable_tag, MarkupEvent,
    MarkupKind, TagKind,
};
use crate::paragraph::{opt_view, reflow_paragraph, reflow_result};
use crate::span::{LineColumn, Range, Span};
use crate::suggestion::{vs, ContentOrigin, Detector, Suggestion, SuggestionSet, SuggestionView};

verus! {

/// Settings of the reflow checker.
#[derive(Clone, Copy, Debug, PartialEq, Eq, Structural)]
pub struct ReflowConfig {
    /// The largest number of characters on a line, indentation included.
    pub max_line_length: usize,
}

/// The reflow checker.
#[derive(Debug)]
pub struct Reflow;

/// One indentation per source line: each covered span gives its start column
/// to every line it spans.
pub open spec fn indentations_of(spans: Seq<Span>) -> Seq<usize>
    decreases spans.len(),
{
    if spans.len() == 0 {
        seq![]
    } else {
        let s = spans.last();
        indentations_of(spans.drop_last()) + Seq::new(
            (s.end.line - s.start.line + 1) as nat,
            |_i: int| s.start.column,
        )
    }
}

/// The source region of a paragraph covered by `spans`; for `///` and `//!`
/// comments the start column is moved one to the right.
pub open spec fn reported_span(spans: Seq<Span>, v: CommentVariant) -> Span {
    let start = spans[0].start;
    let end = spans.last().end;
    if v == CommentVariant::TripleSlash || v == CommentVariant::DoubleSlashEM {
        Span { start: LineColumn { line: start.line, column: (start.column + 1) as usize }, end }
    } else {
        Span { start, end }
    }
}

/// The outcome of reflowing paragraph `[paragraph, end)` of a chunk: the
/// suggestion and where the next paragraph may start, or only the latter.
pub open spec fn store_spec(
    text: Seq<char>,
    v: CommentVariant,
    m: Seq<Fragment>,
    origin: ContentOrigin,
    paragraph: usize,
    end: usize,
    ub: Seq<Range>,
    max: usize,
) -> Result<(SuggestionView, usize), usize> {
    let range = Range { start: paragraph, end };
    let spans = covered_spans(m, range);
    if spans.len() == 0 {
        Err(paragraph)
    } else {
        match reflow_result(
            text.subrange(paragraph as int, end as int),
            ub,
            paragraph as int,
            indentations_of(spans),
            max as int,
            v,
        ) {
            Some(rep) => Ok(
                (
                    SuggestionView {
                        detector: Detector::Reflow,
                        origin,
                        range,
                        span: reported_span(spans, v),
                        replacements: seq![rep],
                        description: None,
                    },
                    end,
                ),
            ),
            None => Err(end),
        }
    }
}

proof fn lemma_indentations_nonempty(spans: Seq<Span>)
    requires
        spans.len() > 0,
        forall|i: int| 0 <= i < spans.len() ==> (#[trigger] spans[i]).start.line <= spans[i].end.line,
    ensures
        indentations_of(spans).len() > 0,
    decreases spans.len(),
{
    if spans.len() > 1 {
        lemma_indentations_nonempty(spans.drop_last());
    }
}

/// Collects the indentation of every source line the spans touch.
fn collect_indentations(spans: &Vec<Span>) -> (r: Vec<usize>)
    requires
        forall|i: int| 0 <= i < spans@.len() ==> (#[trigger] spans@[i]).start.line <= spans@[i].end.line < usize::MAX,
    ensures
        r@ == indentations_of(spans@),
{
    let mut r: Vec<usize> = Vec::new();
    let mut i: usize = 0;
    while i < spans.len()
        invariant
            i <= spans@.len(),
            forall|i: int| 0 <= i < spans@.len() ==> (#[trigger] spans@[i]).start.line <= spans@[i].end.line < usize::MAX,
            r@ == indentations_of(spans@.subrange(0, i as int)),
        decreases spans@.len() - i,
    {
        let s = spans[i];
        let n = s.end.line - s.start.line + 1;
        let ghost before = r@;
        let mut k: usize = 0;
        while k < n
            invariant
                k <= n,
                r@ == before + Seq::new(k as nat, |_i: int| s.start.column),
            decreases n - k,
        {
            r.push(s.start.column);
            k = k + 1;
            assert(r@ =~= before + Seq::new(k as nat, |_i: int| s.start.column));
        }
        let ghost sub = spans@.subrange(0, i + 1 as int);
        assert(sub.drop_last() =~= spans@.subrange(0, i as int));
        i = i + 1;
    }
    assert(spans@.subrange(0, spans@.len() as int) =~= spans@);
    r
}

pub open spec fn result_view(r: Result<(Suggestion, usize), usize>) -> Result<
    (SuggestionView, usize),
    usize,
> {
    match r {
        Ok((s, e)) => Ok((s.view(), e)),
        Err(e) => Err(e),
    }
}

/// Reflows paragraph `[paragraph, end)` of `chunk`. On a proposed change it
/// returns the suggestion and `end`; otherwise where the next paragraph may
/// start: `paragraph` where the range has no source location, else `end`.
pub fn store_suggestion(
    chunk: &Chunk,
    origin: &ContentOrigin,
    paragraph: usize,
    end: usize,
    unbreakable_ranges: &Vec<Range>,
    max_line_width: usize,
) -> (r: Result<(Suggestion, usize), usize>)
    requires
        paragraph <= end <= chunk.text_view().len(),
    ensures
        result_view(r) == store_spec(
            chunk.text_view(),
            chunk.variant_view(),
            chunk.mapping_view(),
            *origin,
            paragraph,
            end,
            unbreakable_ranges@,
            max_line_width,
        ),
        covered_spans(chunk.mapping_view(), Range { start: paragraph, end }).len() == 0 ==> r
            == Err::<(Suggestion, usize), usize>(paragraph),
{
    let range = Range { start: paragraph, end };
    let spans = chunk.find_covered_spans(range);
    if spans.len() == 0 {
        return Err(paragraph);
    }
    let first = spans[0];
    let last = spans[spans.len() - 1];
    let variant = chunk.variant();
    let mut span = Span { start: first.start, end: last.end };
    if variant == CommentVariant::TripleSlash || variant == CommentVariant::DoubleSlashEM {
        span.start.column = span.start.column + 1;
    }
    let indentations = collect_indentations(&spans);
    proof {
        lemma_indentations_nonempty(spans@);
    }
    match reflow_paragraph(
        chunk.chars(),
        range,
        unbreakable_ranges,
        &indentations,
        max_line_width,
        &variant,
    ) {
        Some(replacement) => {
            let replacements = vec![replacement];
            let s = Suggestion {
                detector: Detector::Reflow,
                origin: *origin,
                range,
                span,
                replacements,
                description: None,
            };
            assert(s.view().replacements =~= seq![replacement@]);
            Ok((s, end))
        },
        None => Err(end),
    }
}

/// The state of the paragraph scan: where the open paragraph starts, how
/// deep inside emphasis, links and the like the scan stands, the unbreakable
/// ranges recorded in the paragraph, and the suggestions so far.
pub struct ScanState {
    pub paragraph: usize,
    pub depth: usize,
    pub unbreakables: Seq<Range>,
    pub found: Seq<SuggestionView>,
}

/// Closes the open paragraph at `end`: reflows it where the range is in order.
pub open spec fn close(
    st: ScanState,
    text: Seq<char>,
    v: CommentVariant,
    m: Seq<Fragment>,
    origin: ContentOrigin,
    end: usize,
    max: usize,
) -> ScanState {
    if st.paragraph <= end <= text.len() {
        match store_spec(text, v, m, origin, st.paragraph, end, st.unbreakables, max) {
            Ok((s, p)) => ScanState { paragraph: p, depth: 0, unbreakables: seq![], found: st.found.push(s) },
            Err(p) => ScanState { paragraph: p, depth: 0, unbreakables: seq![], found: st.found },
        }
    } else {
        ScanState { paragraph: end, depth: 0, unbreakables: seq![], found: st.found }
    }
}

/// One event of the scan.
pub open spec fn step(
    st: ScanState,
    e: MarkupEvent,
    text: Seq<char>,
    v: CommentVariant,
    m: Seq<Fragment>,
    origin: ContentOrigin,
    max: usize,
) -> ScanState {
    match e.kind {
        MarkupKind::Start(t) => if is_unbreakable(t) {
            ScanState {
                depth: if st.depth < usize::MAX { (st.depth + 1) as usize } else { st.depth },
                ..st
            }
        } else if t == TagKind::Paragraph {
            ScanState { paragraph: e.start, ..st }
        } else {
            close(st, text, v, m, origin, e.start, max)
        },
        MarkupKind::End(t) => if is_unbreakable(t) {
            if st.depth == 1 {
                ScanState {
                    depth: 0,
                    unbreakables: st.unbreakables.push(Range { start: e.start, end: e.end }),
                    ..st
                }
            } else if st.depth > 1 {
                ScanState { depth: (st.depth - 1) as usize, ..st }
            } else {
                st
            }
        } else if t == TagKind::Paragraph {
            close(st, text, v, m, origin, e.end, max)
        } else {
            ScanState { paragraph: e.end, ..st }
        },
        MarkupKind::HardBreak => close(st, text, v, m, origin, e.end, max),
        _ => st,
    }
}

pub open spec fn scan_events(
    evs: Seq<MarkupEvent>,
    text: Seq<char>,
    v: CommentVariant,
    m: Seq<Fragment>,
    origin: ContentOrigin,
    max: usize,
) -> ScanState
    decreases evs.len(),
{
    if evs.len() == 0 {
        ScanState { paragraph: 0, depth: 0, unbreakables: seq![], found: seq![] }
    } else {
        step(scan_events(evs.drop_last(), text, v, m, origin, max), evs.last(), text, v, m, origin, max)
    }
}

/// The reflow suggestions for one chunk, in the order of its paragraphs.
pub open spec fn chunk_spec(c: Chunk, origin: ContentOrigin, max: usize) -> Seq<SuggestionView> {
    let text = c.text_view();
    scan_events(
        in_chars(text, classify_all(markup_events_of(text))),
        text,
        c.variant_view(),
        c.mapping_view(),
        origin,
        max,
    ).found
}

/// Scans the markup events `evs` of `chunk` (character offsets) and
/// proposes a reflow of each paragraph whose layout at
/// `cfg.max_line_length` differs from its text. A paragraph runs from its
/// start to its end, a hard break, or the start of any construct other than
/// a paragraph or an unbreakable one; the outermost unbreakable constructs
/// inside it are kept whole.
pub fn reflow_events(
    origin: &ContentOrigin,
    chunk: &Chunk,
    evs: &Vec<MarkupEvent>,
    cfg: &ReflowConfig,
) -> (r: Vec<Suggestion>)
    requires
        forall|j: int|
            0 <= j < evs@.len() ==> (#[trigger] evs@[j]).start <= chunk.text_view().len()
                && evs@[j].end <= chunk.text_view().len(),
    ensures
        vs(r@) == scan_events(
            evs@,
            chunk.text_view(),
            chunk.variant_view(),
            chunk.mapping_view(),
            *origin,
            cfg.max_line_length,
        ).found,
{
    let ghost text = chunk.text_view();
    let ghost v = chunk.variant_view();
    let ghost m = chunk.mapping_view();
    let max = cfg.max_line_length;
    let mut paragraph: usize = 0;
    let mut depth: usize = 0;
    let mut unbreakables: Vec<Range> = Vec::new();
    let mut acc: Vec<Suggestion> = Vec::new();
    let mut i: usize = 0;
    assert(evs@.subrange(0, 0) =~= seq![]);
    assert(vs(acc@) =~= seq![]);
    while i < evs.len()
        invariant
            i <= evs@.len(),
            text == chunk.text_view(),
            v == chunk.variant_view(),
            m == chunk.mapping_view(),
            forall|j: int| 0 <= j < evs@.len() ==> (#[trigger] evs@[j]).start <= text.len() && evs@[j].end <= text.len(),
            ({
                let st = scan_events(evs@.subrange(0, i as int), text, v, m, *origin, max);
                &&& st.paragraph == paragraph
                &&& st.depth == depth
                &&& st.unbreakables == unbreakables@
                &&& st.found == vs(acc@)
            }),
        decreases evs@.len() - i,
    {
        let e = evs[i];
        let ghost sub = evs@.subrange(0, i + 1 as int);
        assert(sub.drop_last() =~= evs@.subrange(0, i as int));
        assert(sub.last() == e);
        let close_at: Option<usize> = match e.kind {
            MarkupKind::Start(t) => {
                if unbreakable_tag(t) {
                    if depth < usize::MAX {
                        depth = depth + 1;
                    }
                    None
                } else if t == TagKind::Paragraph {
                    paragraph = e.start;
                    None
                } else {
                    Some(e.start)
                }
            },
            MarkupKind::End(t) => {
                if unbreakable_tag(t) {
                    if depth == 1 {
                        depth = 0;
                        unbreakables.push(Range { start: e.start, end: e.end });
                    } else if depth > 1 {
                        depth = depth - 1;
                    }
                    None
                } else if t == TagKind::Paragraph {
                    Some(e.end)
                } else {
                    paragraph = e.end;
                    None
                }
            },
            MarkupKind::HardBreak => Some(e.end),
            _ => None,
        };
        if let Some(end) = close_at {
            if paragraph <= end {
                let ghost before = acc@;
                match store_suggestion(chunk, origin, paragraph, end, &unbreakables, max) {
                    Ok((s, p)) => {
                        acc.push(s);
                        assert(vs(acc@) =~= vs(before).push(acc@.last().view()));
                        paragraph = p;
                    },
                    Err(p) => {
                        paragraph = p;
                    },
                }
            } else {
                paragraph = end;
            }
            depth = 0;
            unbreakables = Vec::new();
            assert(unbreakables@ =~= seq![]);
        }
        i = i + 1;
    }
    assert(evs@.subrange(0, evs@.len() as int) =~= evs@);
    acc
}

/// Parses the chunk as markup and proposes a reflow of each paragraph whose
/// layout at `cfg.max_line_length` differs from its text.
pub fn reflow(origin: &ContentOrigin, chunk: &Chunk, cfg: &ReflowConfig) -> (r: Vec<Suggestion>)
    ensures
        vs(r@) == chunk_spec(*chunk, *origin, cfg.max_line_length),
{
    let evs = markup_events(chunk.as_str(), chunk.chars());
    reflow_events(origin, chunk, &evs, cfg)
}

} // verus!
