//! Dispatch of a document to the enabled checkers, and the merged, sorted result.

use vstd::prelude::*;

use crate::chunk::Chunk;
use crate::reflow::{chunk_spec, reflow, Reflow, ReflowConfig};
use crate::suggestion::{
    is_sorted, sort_is_ordered_permutation, sort_spec, vs, ContentOrigin, Detector, SuggestionSet, SuggestionView,
};

verus! {

/// The chunks extracted from one file.
#[derive(Debug)]
pub struct DocEntry {
    pub origin: ContentOrigin,
    pub chunks: Vec<Chunk>,
}

/// A document: the chunks of each file, file by file.
#[derive(Debug)]
pub struct Documentation {
    pub entries: Vec<DocEntry>,
}

/// Settings of all checkers: a checker runs where its settings are present.
#[derive(Clone, Copy, Debug)]
pub struct Config {
    pub reflow: Option<ReflowConfig>,
}

/// Why a dispatch pass failed.
#[derive(Clone, Copy, Debug, PartialEq, Eq, Structural)]
pub enum CheckError {
    /// A checker failed.
    Backend(Detector),
}

impl Config {
    pub open spec fn enabled(&self, d: Detector) -> bool {
        match d {
            Detector::Reflow => self.reflow is Some,
            _ => false,
        }
    }

    /// Whether the checker `detector` is enabled.
    pub fn is_enabled(&self, detector: Detector) -> (r: bool)
        ensures
            r == self.enabled(detector),
    {
        match detector {
            Detector::Reflow => self.reflow.is_some(),
            _ => false,
        }
    }
}

/// The reflow suggestions for the chunks of one file, chunk by chunk.
pub open spec fn chunks_spec(chunks: Seq<Chunk>, origin: ContentOrigin, max: usize) -> Seq<
    SuggestionView,
>
    decreases chunks.len(),
{
    if chunks.len() == 0 {
        seq![]
    } else {
        chunks_spec(chunks.drop_last(), origin, max) + chunk_spec(chunks.last(), origin, max)
    }
}

/// The reflow suggestions for a whole document, file by file.
pub open spec fn doc_spec(entries: Seq<DocEntry>, max: usize) -> Seq<SuggestionView>
    decreases entries.len(),
{
    if entries.len() == 0 {
        seq![]
    } else {
        doc_spec(entries.drop_last(), max) + chunks_spec(
            entries.last().chunks@,
            entries.last().origin,
            max,
        )
    }
}

/// The outcome of a dispatch pass: the enabled checkers' suggestions in
/// canonical order.
pub open spec fn check_spec(entries: Seq<DocEntry>, config: Config) -> Seq<SuggestionView> {
    match config.reflow {
        Some(c) => sort_spec(doc_spec(entries, c.max_line_length)),
        None => seq![],
    }
}

impl Reflow {
    pub fn detector() -> (r: Detector)
        ensures
            r == Detector::Reflow,
    {
        Detector::Reflow
    }

    /// Proposes reflows for every chunk of the document, file by file and
    /// chunk by chunk.
    pub fn check(docu: &Documentation, config: &ReflowConfig) -> (r: Result<
        SuggestionSet,
        CheckError,
    >)
        ensures
            r matches Ok(set) && set.view() == doc_spec(docu.entries@, config.max_line_length),
    {
        let mut suggestions = SuggestionSet::new();
        let mut i: usize = 0;
        assert(docu.entries@.subrange(0, 0) =~= seq![]);
        while i < docu.entries.len()
            invariant
                i <= docu.entries@.len(),
                suggestions.view() == doc_spec(
                    docu.entries@.subrange(0, i as int),
                    config.max_line_length,
                ),
            decreases docu.entries@.len() - i,
        {
            let entry = &docu.entries[i];
            let ghost sub = docu.entries@.subrange(0, i + 1 as int);
            assert(sub.drop_last() =~= docu.entries@.subrange(0, i as int));
            let ghost base = suggestions.view();
            let mut k: usize = 0;
            assert(entry.chunks@.subrange(0, 0) =~= seq![]);
            assert(base + chunks_spec(seq![], entry.origin, config.max_line_length) =~= base);
            while k < entry.chunks.len()
                invariant
                    k <= entry.chunks@.len(),
                    suggestions.view() == base + chunks_spec(
                        entry.chunks@.subrange(0, k as int),
                        entry.origin,
                        config.max_line_length,
                    ),
                decreases entry.chunks@.len() - k,
            {
                let ghost csub = entry.chunks@.subrange(0, k + 1 as int);
                assert(csub.drop_last() =~= entry.chunks@.subrange(0, k as int));
                let found = reflow(&entry.origin, &entry.chunks[k], config);
                suggestions.extend(found);
                assert(suggestions.view() =~= base + chunks_spec(
                    csub,
                    entry.origin,
                    config.max_line_length,
                ));
                k = k + 1;
            }
            assert(entry.chunks@.subrange(0, entry.chunks@.len() as int) =~= entry.chunks@);
            i = i + 1;
        }
        assert(docu.entries@.subrange(0, docu.entries@.len() as int) =~= docu.entries@);
        Ok(suggestions)
    }
}

/// Runs the reflow checker and joins its suggestions into `collective`.
pub fn invoke_checker_inner(
    documentation: &Documentation,
    config: Option<&ReflowConfig>,
    collective: &mut SuggestionSet,
) -> (r: Result<(), CheckError>)
    requires
        config is Some,
    ensures
        r is Ok,
        final(collective).view() == old(collective).view() + doc_spec(
            documentation.entries@,
            config.unwrap().max_line_length,
        ),
{
    let config = config.unwrap();
    match Reflow::check(documentation, config) {
        Ok(suggestions) => {
            collective.join(suggestions);
            Ok(())
        },
        Err(e) => Err(e),
    }
}

/// Checks a whole document with every enabled checker and returns their
/// suggestions merged and sorted by origin and span start. Checkers that are
/// not part of this build are skipped.
pub fn check(documentation: &Documentation, config: &Config) -> (r: Result<
    SuggestionSet,
    CheckError,
>)
    ensures
        r matches Ok(set) && set.view() == check_spec(documentation.entries@, *config)
            && is_sorted(set.view()),
        !config.enabled(Detector::Reflow) ==> (r matches Ok(set) && set.view().len() == 0),
        config.reflow matches Some(c) ==> (r matches Ok(set) && set.view().to_multiset()
            == doc_spec(documentation.entries@, c.max_line_length).to_multiset()),
{
    let mut collective = SuggestionSet::new();
    let detector = Reflow::detector();
    if config.is_enabled(detector) {
        let res = invoke_checker_inner(documentation, config.reflow.as_ref(), &mut collective);
        if let Err(e) = res {
            return Err(e);
        }
    }
    assert(Seq::<SuggestionView>::empty() + doc_spec(
        documentation.entries@,
        match config.reflow { Some(c) => c.max_line_length, None => 0 },
    ) =~= doc_spec(
        documentation.entries@,
        match config.reflow { Some(c) => c.max_line_length, None => 0 },
    ));
    let ghost unsorted = collective.view();
    collective.sort();
    proof {
        sort_is_ordered_permutation(unsorted);
        if config.reflow is None {
            assert(collective.view().len() == 0);
            assert(sort_spec(Seq::<SuggestionView>::empty()) =~= Seq::<SuggestionView>::empty());
        }
    }
    Ok(collective)
}

} // verus!
