//! Extracted documentation chunks and their mapping back to the source file.

use vstd::prelude::*;

use crate::span::{LineColumn, Range, Span};
use crate::text::chars_of;

verus! {

/// The comment style a chunk was extracted from.
#[derive(Clone, Copy, Debug, PartialEq, Eq, Structural)]
pub enum CommentVariant {
    /// A plain markdown file, without decoration.
    CommonMark,
    /// `/// text`
    TripleSlash,
    /// `//! text`
    DoubleSlashEM,
    /// `#[doc=r#"text"#]`, with the given number of `#` around the raw string.
    MacroDocEq(usize),
}

pub open spec fn pounds(n: nat) -> Seq<char> {
    Seq::new(n, |_i: int| '#')
}

/// The decoration put in front of each continued line.
pub open spec fn prefix_of(v: CommentVariant) -> Seq<char> {
    match v {
        CommentVariant::CommonMark => seq![],
        CommentVariant::TripleSlash => seq!['/', '/', '/', ' '],
        CommentVariant::DoubleSlashEM => seq!['/', '/', '!', ' '],
        CommentVariant::MacroDocEq(n) => seq!['#', '[', 'd', 'o', 'c', '=', 'r'] + pounds(n as nat)
            + seq!['"'],
    }
}

/// The decoration closing each line.
pub open spec fn suffix_of(v: CommentVariant) -> Seq<char> {
    match v {
        CommentVariant::MacroDocEq(n) => seq!['"'] + pounds(n as nat) + seq![']'],
        _ => seq![],
    }
}

/// The number of decoration characters in front of a line's text that
/// precede the column at which the chunk's text starts.
pub open spec fn prefix_len_of(v: CommentVariant) -> int {
    match v {
        CommentVariant::CommonMark => 0,
        CommentVariant::TripleSlash => 3,
        CommentVariant::DoubleSlashEM => 3,
        CommentVariant::MacroDocEq(n) => 8 + n,
    }
}

fn push_pounds(v: &mut Vec<char>, n: usize)
    ensures
        final(v)@ == old(v)@ + pounds(n as nat),
{
    let mut i: usize = 0;
    while i < n
        invariant
            i <= n,
            v@ == old(v)@ + pounds(i as nat),
        decreases n - i,
    {
        v.push('#');
        i = i + 1;
        assert(pounds(i as nat) == pounds((i - 1) as nat).push('#'));
    }
}

impl CommentVariant {
    pub fn prefix_chars(&self) -> (r: Vec<char>)
        ensures
            r@ == prefix_of(*self),
    {
        match self {
            CommentVariant::CommonMark => Vec::new(),
            CommentVariant::TripleSlash => vec!['/', '/', '/', ' '],
            CommentVariant::DoubleSlashEM => vec!['/', '/', '!', ' '],
            CommentVariant::MacroDocEq(n) => {
                let mut v = vec!['#', '[', 'd', 'o', 'c', '=', 'r'];
                push_pounds(&mut v, *n);
                v.push('"');
                v
            },
        }
    }

    pub fn suffix_chars(&self) -> (r: Vec<char>)
        ensures
            r@ == suffix_of(*self),
    {
        match self {
            CommentVariant::MacroDocEq(n) => {
                let mut v = vec!['"'];
                push_pounds(&mut v, *n);
                v.push(']');
                v
            },
            _ => Vec::new(),
        }
    }

    /// Decoration characters to take off a line's start column to get its indentation,
    /// saturated at the largest `usize`.
    pub fn prefix_len(&self) -> (r: usize)
        ensures
            r == if prefix_len_of(*self) <= usize::MAX {
                prefix_len_of(*self)
            } else {
                usize::MAX as int
            },
    {
        match self {
            CommentVariant::CommonMark => 0,
            CommentVariant::TripleSlash => 3,
            CommentVariant::DoubleSlashEM => 3,
            CommentVariant::MacroDocEq(n) => {
                if *n > usize::MAX - 8 {
                    usize::MAX
                } else {
                    8 + *n
                }
            },
        }
    }
}

/// One contiguous piece of chunk text and where it stands in the source.
#[derive(Clone, Copy, Debug, PartialEq, Eq, Structural)]
pub struct Fragment {
    pub range: Range,
    pub span: Span,
}

pub open spec fn fragment_wf(f: Fragment, len: nat) -> bool {
    &&& f.range.start <= f.range.end <= len
    &&& f.span.start.line <= f.span.end.line < usize::MAX
    &&& f.span.start.column < usize::MAX
}

pub open spec fn mapping_wf(m: Seq<Fragment>, len: nat) -> bool {
    forall|i: int| 0 <= i < m.len() ==> fragment_wf(#[trigger] m[i], len)
}

/// The spans of the fragments that share an offset with `r`, in mapping order.
pub open spec fn covered_spans(m: Seq<Fragment>, r: Range) -> Seq<Span>
    decreases m.len(),
{
    if m.len() == 0 {
        seq![]
    } else {
        let rest = covered_spans(m.drop_last(), r);
        if m.last().range.overlaps(r) {
            rest.push(m.last().span)
        } else {
            rest
        }
    }
}

/// An immutable unit of prose extracted from one comment.
#[derive(Debug)]
pub struct Chunk {
    text: String,
    chars: Vec<char>,
    variant: CommentVariant,
    mapping: Vec<Fragment>,
}

impl Chunk {
    #[verifier::type_invariant]
    closed spec fn wf(&self) -> bool {
        &&& self.chars@ == self.text@
        &&& mapping_wf(self.mapping@, self.text@.len())
    }

    pub closed spec fn text_view(&self) -> Seq<char> {
        self.text@
    }

    pub closed spec fn variant_view(&self) -> CommentVariant {
        self.variant
    }

    pub closed spec fn mapping_view(&self) -> Seq<Fragment> {
        self.mapping@
    }

    /// A chunk of `text` in the comment style `variant`, with `mapping` placing
    /// pieces of the text in the source. `None` where a fragment lies outside
    /// the text or holds an inverted or unrepresentable span.
    pub fn new(text: String, variant: CommentVariant, mapping: Vec<Fragment>) -> (r: Option<Chunk>)
        ensures
            r is Some <==> mapping_wf(mapping@, text@.len()),
            r matches Some(c) ==> c.text_view() == text@ && c.variant_view()
                == variant && c.mapping_view() == mapping@,
    {
        let chars = chars_of(text.as_str());
        let mut i: usize = 0;
        while i < mapping.len()
            invariant
                i <= mapping@.len(),
                chars@ == text@,
                forall|j: int| 0 <= j < i ==> fragment_wf(#[trigger] mapping@[j], text@.len()),
            decreases mapping@.len() - i,
        {
            let f = mapping[i];
            if !(f.range.start <= f.range.end && f.range.end <= chars.len()
                && f.span.start.line <= f.span.end.line && f.span.end.line < usize::MAX
                && f.span.start.column < usize::MAX) {
                return None;
            }
            i = i + 1;
        }
        Some(Chunk { text, chars, variant, mapping })
    }

    pub fn as_str(&self) -> (r: &str)
        ensures
            r@ == self.text_view(),
    {
        self.text.as_str()
    }

    pub(crate) fn chars(&self) -> (r: &Vec<char>)
        ensures
            r@ == self.text_view(),
    {
        proof {
            use_type_invariant(self);
        }
        &self.chars
    }

    pub fn variant(&self) -> (r: CommentVariant)
        ensures
            r == self.variant_view(),
    {
        self.variant
    }

    pub fn mapping(&self) -> (r: &Vec<Fragment>)
        ensures
            r@ == self.mapping_view(),
    {
        &self.mapping
    }

    /// The spans of all fragments sharing an offset with `range`, in document
    /// order. Empty where `range` meets no mapped fragment: such a range has no
    /// source location.
    pub fn find_covered_spans(&self, range: Range) -> (r: Vec<Span>)
        ensures
            r@ == covered_spans(self.mapping_view(), range),
            r@.len() == 0 <==> forall|i: int|
                0 <= i < self.mapping_view().len() ==> !(#[trigger] self.mapping_view()[i]).range.overlaps(range),
            forall|i: int| 0 <= i < r@.len() ==> {
                &&& (#[trigger] r@[i]).start.line <= r@[i].end.line < usize::MAX
                &&& r@[i].start.column < usize::MAX
            },
    {
        proof {
            use_type_invariant(self);
        }
        let mut out: Vec<Span> = Vec::new();
        let mut i: usize = 0;
        while i < self.mapping.len()
            invariant
                mapping_wf(self.mapping@, self.text@.len()),
                i <= self.mapping@.len(),
                out@ == covered_spans(self.mapping@.subrange(0, i as int), range),
                out@.len() == 0 <==> forall|j: int|
                    0 <= j < i ==> !(#[trigger] self.mapping@[j]).range.overlaps(range),
                forall|j: int| 0 <= j < out@.len() ==> {
                    &&& (#[trigger] out@[j]).start.line <= out@[j].end.line < usize::MAX
                    &&& out@[j].start.column < usize::MAX
                },
            decreases self.mapping@.len() - i,
        {
            let f = self.mapping[i];
            assert(self.mapping@.subrange(0, i + 1 as int).drop_last() == self.mapping@.subrange(
                0,
                i as int,
            ));
            if f.range.overlaps_range(&range) {
                out.push(f.span);
            }
            i = i + 1;
        }
        assert(self.mapping@.subrange(0, self.mapping@.len() as int) == self.mapping@);
        out
    }
}

} // verus!
