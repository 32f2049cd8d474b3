//! Markup events of a chunk's text, with character offsets.

use vstd::prelude::*;

use pulldown_cmark::{Options, Parser};
use vstd::string::StrSliceExecFns;

use crate::text::chars_of;

verus! {

/// The kind of construct a start or end event belongs to.
#[derive(Clone, Copy, Debug, PartialEq, Eq, Structural)]
pub enum TagKind {
    Paragraph,
    Heading,
    BlockQuote,
    CodeBlock,
    List,
    Item,
    FootnoteDefinition,
    Table,
    TableHead,
    TableRow,
    TableCell,
    Emphasis,
    Strong,
    Strikethrough,
    Link,
    Image,
}

/// What a markup event is.
#[derive(Clone, Copy, Debug, PartialEq, Eq, Structural)]
pub enum MarkupKind {
    Start(TagKind),
    End(TagKind),
    Text,
    Code,
    Html,
    FootnoteReference,
    SoftBreak,
    HardBreak,
    Rule,
    TaskListMarker,
    /// An event whose form is not one of the above.
    Unrecognized,
}

/// Constructs whose text is never split across lines: emphasis, strong
/// emphasis, strikethrough, links and images.
pub open spec fn is_unbreakable(t: TagKind) -> bool {
    t == TagKind::Emphasis || t == TagKind::Strong || t == TagKind::Strikethrough || t
        == TagKind::Link || t == TagKind::Image
}

/// Whether the construct `t` is never split across lines.
pub fn unbreakable_tag(t: TagKind) -> (r: bool)
    ensures
        r == is_unbreakable(t),
{
    match t {
        TagKind::Emphasis | TagKind::Strong | TagKind::Strikethrough | TagKind::Link
        | TagKind::Image => true,
        _ => false,
    }
}

/// One event with the range `[start, end)` of text it covers.
#[derive(Clone, Copy, Debug, PartialEq, Eq, Structural)]
pub struct MarkupEvent {
    pub kind: MarkupKind,
    pub start: usize,
    pub end: usize,
}

/// The events that the CommonMark parser yields for a text: each written in
/// its `Debug` form, with its range in bytes.
pub uninterp spec fn markup_events_of(s: Seq<char>) -> Seq<(Seq<char>, usize, usize)>;

pub open spec fn raw_view(r: Seq<(String, usize, usize)>) -> Seq<(Seq<char>, usize, usize)> {
    r.map_values(|e: (String, usize, usize)| (e.0@, e.1, e.2))
}

/// Relies on `pulldown_cmark::Parser::new_ext` with all options and its offset
/// iterator: the event sequence depends on the text alone. Each event is
/// written with its derived `Debug` form, such as `Start(Paragraph)`.
#[verifier::external_body]
fn parse_markup(s: &str) -> (r: Vec<(String, usize, usize)>)
    ensures
        raw_view(r@) == markup_events_of(s@),
{
    let events = Parser::new_ext(s, Options::all()).into_offset_iter();
    events.map(|(e, c)| (format!("{:?}", e), c.start, c.end)).collect()
}

/// `d` holds `p` at offset `at`.
pub open spec fn prefixed(d: Seq<char>, at: int, p: Seq<char>) -> bool {
    0 <= at && at + p.len() <= d.len() && d.subrange(at, at + p.len()) == p
}

/// The construct named at offset `at` of an event's written form.
pub open spec fn tag_at(d: Seq<char>, at: int) -> Option<TagKind> {
    if prefixed(d, at, "Paragraph)"@) {
        Some(TagKind::Paragraph)
    } else if prefixed(d, at, "Heading("@) {
        Some(TagKind::Heading)
    } else if prefixed(d, at, "BlockQuote)"@) {
        Some(TagKind::BlockQuote)
    } else if prefixed(d, at, "CodeBlock("@) {
        Some(TagKind::CodeBlock)
    } else if prefixed(d, at, "List("@) {
        Some(TagKind::List)
    } else if prefixed(d, at, "Item)"@) {
        Some(TagKind::Item)
    } else if prefixed(d, at, "FootnoteDefinition("@) {
        Some(TagKind::FootnoteDefinition)
    } else if prefixed(d, at, "Table("@) {
        Some(TagKind::Table)
    } else if prefixed(d, at, "TableHead)"@) {
        Some(TagKind::TableHead)
    } else if prefixed(d, at, "TableRow)"@) {
        Some(TagKind::TableRow)
    } else if prefixed(d, at, "TableCell)"@) {
        Some(TagKind::TableCell)
    } else if prefixed(d, at, "Emphasis)"@) {
        Some(TagKind::Emphasis)
    } else if prefixed(d, at, "Strong)"@) {
        Some(TagKind::Strong)
    } else if prefixed(d, at, "Strikethrough)"@) {
        Some(TagKind::Strikethrough)
    } else if prefixed(d, at, "Link("@) {
        Some(TagKind::Link)
    } else if prefixed(d, at, "Image("@) {
        Some(TagKind::Image)
    } else {
        None
    }
}

/// The kind of event written as `d`.
pub open spec fn kind_of(d: Seq<char>) -> MarkupKind {
    if prefixed(d, 0, "Start("@) {
        match tag_at(d, 6) {
            Some(t) => MarkupKind::Start(t),
            None => MarkupKind::Unrecognized,
        }
    } else if prefixed(d, 0, "End("@) {
        match tag_at(d, 4) {
            Some(t) => MarkupKind::End(t),
            None => MarkupKind::Unrecognized,
        }
    } else if prefixed(d, 0, "Text("@) {
        MarkupKind::Text
    } else if prefixed(d, 0, "Code("@) {
        MarkupKind::Code
    } else if prefixed(d, 0, "Html("@) {
        MarkupKind::Html
    } else if prefixed(d, 0, "FootnoteReference("@) {
        MarkupKind::FootnoteReference
    } else if prefixed(d, 0, "SoftBreak"@) {
        MarkupKind::SoftBreak
    } else if prefixed(d, 0, "HardBreak"@) {
        MarkupKind::HardBreak
    } else if prefixed(d, 0, "Rule"@) {
        MarkupKind::Rule
    } else if prefixed(d, 0, "TaskListMarker("@) {
        MarkupKind::TaskListMarker
    } else {
        MarkupKind::Unrecognized
    }
}

pub open spec fn classify_all(raw: Seq<(Seq<char>, usize, usize)>) -> Seq<MarkupEvent> {
    raw.map_values(|e: (Seq<char>, usize, usize)| MarkupEvent { kind: kind_of(e.0), start: e.1, end: e.2 })
}

/// Whether `d` holds `p` at offset `at`.
fn has_prefix(d: &Vec<char>, at: usize, p: &str) -> (r: bool)
    ensures
        r == prefixed(d@, at as int, p@),
{
    let n = p.unicode_len();
    if at > d.len() || n > d.len() - at {
        return false;
    }
    let dl = d.len();
    let mut i: usize = 0;
    while i < n
        invariant
            n == p@.len(),
            dl == d@.len(),
            (at as int) + (n as int) <= d@.len(),
            i <= n,
            forall|k: int| 0 <= k < i ==> d@[at + k] == p@[k],
        decreases n - i,
    {
        if d[at + i] != p.get_char(i) {
            assert(d@.subrange(at as int, at + n)[i as int] != p@[i as int]);
            return false;
        }
        i = i + 1;
    }
    assert(d@.subrange(at as int, at + n) =~= p@);
    true
}

fn tag_at_exec(d: &Vec<char>, at: usize) -> (r: Option<TagKind>)
    ensures
        r == tag_at(d@, at as int),
{
    if has_prefix(d, at, "Paragraph)") {
        Some(TagKind::Paragraph)
    } else if has_prefix(d, at, "Heading(") {
        Some(TagKind::Heading)
    } else if has_prefix(d, at, "BlockQuote)") {
        Some(TagKind::BlockQuote)
    } else if has_prefix(d, at, "CodeBlock(") {
        Some(TagKind::CodeBlock)
    } else if has_prefix(d, at, "List(") {
        Some(TagKind::List)
    } else if has_prefix(d, at, "Item)") {
        Some(TagKind::Item)
    } else if has_prefix(d, at, "FootnoteDefinition(") {
        Some(TagKind::FootnoteDefinition)
    } else if has_prefix(d, at, "Table(") {
        Some(TagKind::Table)
    } else if has_prefix(d, at, "TableHead)") {
        Some(TagKind::TableHead)
    } else if has_prefix(d, at, "TableRow)") {
        Some(TagKind::TableRow)
    } else if has_prefix(d, at, "TableCell)") {
        Some(TagKind::TableCell)
    } else if has_prefix(d, at, "Emphasis)") {
        Some(TagKind::Emphasis)
    } else if has_prefix(d, at, "Strong)") {
        Some(TagKind::Strong)
    } else if has_prefix(d, at, "Strikethrough)") {
        Some(TagKind::Strikethrough)
    } else if has_prefix(d, at, "Link(") {
        Some(TagKind::Link)
    } else if has_prefix(d, at, "Image(") {
        Some(TagKind::Image)
    } else {
        None
    }
}

/// The kind of event written as `d`.
pub fn classify(d: &Vec<char>) -> (r: MarkupKind)
    ensures
        r == kind_of(d@),
{
    if has_prefix(d, 0, "Start(") {
        match tag_at_exec(d, 6) {
            Some(t) => MarkupKind::Start(t),
            None => MarkupKind::Unrecognized,
        }
    } else if has_prefix(d, 0, "End(") {
        match tag_at_exec(d, 4) {
            Some(t) => MarkupKind::End(t),
            None => MarkupKind::Unrecognized,
        }
    } else if has_prefix(d, 0, "Text(") {
        MarkupKind::Text
    } else if has_prefix(d, 0, "Code(") {
        MarkupKind::Code
    } else if has_prefix(d, 0, "Html(") {
        MarkupKind::Html
    } else if has_prefix(d, 0, "FootnoteReference(") {
        MarkupKind::FootnoteReference
    } else if has_prefix(d, 0, "SoftBreak") {
        MarkupKind::SoftBreak
    } else if has_prefix(d, 0, "HardBreak") {
        MarkupKind::HardBreak
    } else if has_prefix(d, 0, "Rule") {
        MarkupKind::Rule
    } else if has_prefix(d, 0, "TaskListMarker(") {
        MarkupKind::TaskListMarker
    } else {
        MarkupKind::Unrecognized
    }
}

/// Classifies written events, keeping their ranges.
pub fn classify_events(raw: &Vec<(String, usize, usize)>) -> (r: Vec<MarkupEvent>)
    ensures
        r@ == classify_all(raw_view(raw@)),
{
    let mut out: Vec<MarkupEvent> = Vec::new();
    let mut i: usize = 0;
    while i < raw.len()
        invariant
            i <= raw@.len(),
            out@ == classify_all(raw_view(raw@)).subrange(0, i as int),
        decreases raw@.len() - i,
    {
        let e = &raw[i];
        let d = chars_of(e.0.as_str());
        out.push(MarkupEvent { kind: classify(&d), start: e.1, end: e.2 });
        i = i + 1;
        assert(out@ =~= classify_all(raw_view(raw@)).subrange(0, i as int));
    }
    assert(classify_all(raw_view(raw@)).subrange(0, raw@.len() as int) =~= classify_all(raw_view(raw@)));
    out
}

/// Length of a character in UTF-8.
pub open spec fn utf8_len(c: char) -> int {
    if (c as u32) < 0x80 {
        1
    } else if (c as u32) < 0x800 {
        2
    } else if (c as u32) < 0x10000 {
        3
    } else {
        4
    }
}

/// The byte offset of character `k` of `s` in UTF-8.
pub open spec fn byte_pos(s: Seq<char>, k: int) -> int
    decreases k,
{
    if k <= 0 || k > s.len() {
        0
    } else {
        byte_pos(s, k - 1) + utf8_len(s[k - 1])
    }
}

/// Byte offset `b` is the start of a character of `s`, or its end.
pub open spec fn at_boundary(s: Seq<char>, b: int) -> bool {
    exists|k: int| 0 <= k <= s.len() && byte_pos(s, k) == b
}

/// The character offset of the boundary at byte offset `b`.
pub open spec fn char_index(s: Seq<char>, b: int) -> int {
    choose|k: int| 0 <= k <= s.len() && byte_pos(s, k) == b
}

/// The events of `evs` with both offsets on character boundaries, in
/// character offsets; the others are dropped.
pub open spec fn in_chars(s: Seq<char>, evs: Seq<MarkupEvent>) -> Seq<MarkupEvent>
    decreases evs.len(),
{
    if evs.len() == 0 {
        seq![]
    } else {
        let rest = in_chars(s, evs.drop_last());
        let e = evs.last();
        if at_boundary(s, e.start as int) && at_boundary(s, e.end as int) {
            rest.push(
                MarkupEvent {
                    kind: e.kind,
                    start: char_index(s, e.start as int) as usize,
                    end: char_index(s, e.end as int) as usize,
                },
            )
        } else {
            rest
        }
    }
}

proof fn lemma_byte_pos_mono(s: Seq<char>, a: int, b: int)
    requires
        0 <= a <= b <= s.len(),
    ensures
        byte_pos(s, a) + (b - a) <= byte_pos(s, b),
        byte_pos(s, b) <= byte_pos(s, a) + 4 * (b - a),
    decreases b - a,
{
    if a < b {
        lemma_byte_pos_mono(s, a, b - 1);
    }
}

proof fn lemma_char_index_unique(s: Seq<char>, k: int)
    requires
        0 <= k <= s.len(),
    ensures
        at_boundary(s, byte_pos(s, k)),
        char_index(s, byte_pos(s, k)) == k,
{
    let b = byte_pos(s, k);
    assert(at_boundary(s, b));
    let j = char_index(s, b);
    if j < k {
        lemma_byte_pos_mono(s, j, k);
    } else if k < j {
        lemma_byte_pos_mono(s, k, j);
    }
}

fn utf8_width(c: char) -> (r: u128)
    ensures
        r == utf8_len(c),
{
    if (c as u32) < 0x80 {
        1
    } else if (c as u32) < 0x800 {
        2
    } else if (c as u32) < 0x10000 {
        3
    } else {
        4
    }
}

/// The character offset whose UTF-8 byte offset is `b`, if there is one.
fn char_index_of(s: &Vec<char>, b: usize) -> (r: Option<usize>)
    ensures
        r is Some <==> at_boundary(s@, b as int),
        r matches Some(k) ==> k == char_index(s@, b as int) && k <= s@.len(),
{
    let n = s.len();
    let mut k: usize = 0;
    let mut pos: u128 = 0;
    while k < n && pos < b as u128
        invariant
            k <= n == s@.len(),
            pos == byte_pos(s@, k as int),
            forall|j: int| 0 <= j < k ==> byte_pos(s@, j) < b,
        decreases n - k,
    {
        proof {
            lemma_byte_pos_mono(s@, 0, k as int);
        }
        pos = pos + utf8_width(s[k]);
        k = k + 1;
    }
    if pos == b as u128 {
        proof {
            lemma_char_index_unique(s@, k as int);
        }
        Some(k)
    } else {
        assert forall|j: int| 0 <= j <= s@.len() implies byte_pos(s@, j) != b by {
            if j > k {
                lemma_byte_pos_mono(s@, k as int, j);
            }
        }
        None
    }
}

/// Converts the byte offsets of `evs` into character offsets of `s`,
/// dropping events whose offsets fall inside a character.
pub fn events_in_chars(s: &Vec<char>, evs: &Vec<MarkupEvent>) -> (r: Vec<MarkupEvent>)
    ensures
        r@ == in_chars(s@, evs@),
        forall|i: int| 0 <= i < r@.len() ==> (#[trigger] r@[i]).start <= s@.len() && r@[i].end <= s@.len(),
{
    let mut out: Vec<MarkupEvent> = Vec::new();
    let mut i: usize = 0;
    while i < evs.len()
        invariant
            i <= evs@.len(),
            out@ == in_chars(s@, evs@.subrange(0, i as int)),
            forall|j: int| 0 <= j < out@.len() ==> (#[trigger] out@[j]).start <= s@.len() && out@[j].end <= s@.len(),
        decreases evs@.len() - i,
    {
        let e = evs[i];
        assert(evs@.subrange(0, i + 1 as int).drop_last() =~= evs@.subrange(0, i as int));
        match (char_index_of(s, e.start), char_index_of(s, e.end)) {
            (Some(a), Some(b)) => {
                out.push(MarkupEvent { kind: e.kind, start: a, end: b });
            },
            _ => {},
        }
        i = i + 1;
    }
    assert(evs@.subrange(0, evs@.len() as int) =~= evs@);
    out
}

/// The markup events of `s`, with character offsets.
pub fn markup_events(s: &str, chars: &Vec<char>) -> (r: Vec<MarkupEvent>)
    requires
        chars@ == s@,
    ensures
        r@ == in_chars(s@, classify_all(markup_events_of(s@))),
        forall|i: int| 0 <= i < r@.len() ==> (#[trigger] r@[i]).start <= s@.len() && r@[i].end <= s@.len(),
{
    let raw = parse_markup(s);
    let evs = classify_events(&raw);
    events_in_chars(chars, &evs)
}

} // verus!
