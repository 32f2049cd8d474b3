use spellcheck_core::chunk::{Chunk, CommentVariant, Fragment};
use spellcheck_core::checker::{check, Config, DocEntry, Documentation};
use spellcheck_core::paragraph::reflow_inner;
use spellcheck_core::markup::{classify, MarkupEvent, MarkupKind, TagKind};
use spellcheck_core::reflow::{reflow, reflow_events, store_suggestion, Reflow, ReflowConfig};
use spellcheck_core::span::{LineColumn, Range, Span};
use spellcheck_core::suggestion::{ContentOrigin, Detector, Suggestion, SuggestionSet};

const ORIGIN: ContentOrigin = ContentOrigin { id: 0 };

/// The source text of `///` comment lines followed by a struct.
fn fluff_source(lines: &[&str]) -> String {
    let mut s = String::new();
    for l in lines {
        s.push_str("/// ");
        s.push_str(l);
        s.push('\n');
    }
    s.push_str("struct Fluff;");
    s
}

/// Builds a chunk of the given lines, each line `i` placed on source line
/// `i + 1` at the column given by `column(i)`.
fn chunk_of(
    lines: &[String],
    variant: CommentVariant,
    column: impl Fn(usize) -> usize,
) -> Chunk {
    let mut text = String::new();
    let mut mapping = Vec::new();
    let mut offset = 0usize;
    for (i, l) in lines.iter().enumerate() {
        if i > 0 {
            text.push('\n');
            offset += 1;
        }
        let n = l.chars().count();
        text.push_str(l);
        if n > 0 {
            let col = column(i);
            mapping.push(Fragment {
                range: Range { start: offset, end: offset + n },
                span: Span {
                    start: LineColumn { line: i + 1, column: col },
                    end: LineColumn { line: i + 1, column: col + n - 1 },
                },
            });
        }
        offset += n;
    }
    Chunk::new(text, variant, mapping).expect("mapping lies inside the text")
}

/// The chunk of `///` comment lines: the text after `/// `. The source
/// mapping of `///` comments places each line one column early (at 3, the
/// text stands at 4), which the reported span of a suggestion corrects.
fn fluff_chunk(lines: &[&str]) -> Chunk {
    let lines: Vec<String> = lines.iter().map(|l| l.to_string()).collect();
    chunk_of(&lines, CommentVariant::TripleSlash, |_| 3)
}

/// The chunk of one `#[doc=r#"..."#]` attribute over several lines.
fn chyrp_chunk(lines: &[&str]) -> Chunk {
    let lines: Vec<String> = lines.iter().map(|l| l.to_string()).collect();
    chunk_of(&lines, CommentVariant::MacroDocEq(1), |i| if i == 0 { 9 } else { 0 })
}

fn verify_reflow_inner(n: usize, lines: &[&str], expected: &str) {
    let chunk = fluff_chunk(lines);
    let range = Range { start: 0, end: chunk.as_str().chars().count() };
    let indentation: Vec<usize> = vec![3; 6];
    let unbreakables = Vec::new();
    let replacement = reflow_inner(
        chunk.as_str(),
        range,
        &unbreakables,
        &indentation,
        n,
        &chunk.variant(),
    );
    if let Some(repl) = replacement {
        assert_eq!(repl, expected);
    } else {
        for line in fluff_source(lines).lines() {
            assert!(line.len() < n);
        }
    }
}

fn reflow_check(chunk: &Chunk, n: usize, expected: &str, no_reflow: bool) {
    let cfg = ReflowConfig { max_line_length: n };
    let suggestions = reflow(&ORIGIN, chunk, &cfg);
    if no_reflow {
        assert_eq!(suggestions.len(), 0);
    } else {
        let suggestion = suggestions.first().expect("Contains one suggestion. qed");
        let replacement = suggestion
            .replacements
            .first()
            .expect("There exists a replacement. qed");
        assert_eq!(replacement.as_str(), expected);
    }
}

#[test]
fn reflow_replacement_from_chunk() {
    verify_reflow_inner(
        80,
        &[
            "This module contains documentation that is too long for one line and moreover, it spans over mulitple lines such that we can test our rewrapping algorithm. With emojis: 🚤w🌴x🌋y🍈z🍉0",
            "Smart, isn't it? Lorem ipsum and some more blanket text without any meaning",
        ],
        "This module contains documentation that is too long for one line and
/// moreover, it spans over mulitple lines such that we can test our rewrapping
/// algorithm. With emojis: 🚤w🌴x🌋y🍈z🍉0 Smart, isn't it? Lorem ipsum and some more
/// blanket text without any meaning",
    );
}

#[test]
fn reflow_inner_not_required() {
    verify_reflow_inner(
        80,
        &["This module contains documentation."],
        "This module contains documentation.",
    );
    verify_reflow_inner(
        39,
        &["This module contains documentation", "which is split in two lines"],
        "This module contains documentation
/// which is split in two lines",
    );
}

#[test]
fn reflow_into_suggestion() {
    let chunk = fluff_chunk(&[
        "This module contains documentation thats is too long for one line and moreover, it spans over mulitple lines such that we can test our rewrapping algorithm. Smart, isn't it? Lorem ipsum and some more blanket text without any meaning.",
        "But lets also see what happens if there are two consecutive newlines in one connected documentation span.",
    ]);
    reflow_check(
        &chunk,
        44,
        "This module contains documentation thats
/// is too long for one line and moreover, it
/// spans over mulitple lines such that we
/// can test our rewrapping algorithm. Smart,
/// isn't it? Lorem ipsum and some more
/// blanket text without any meaning. But
/// lets also see what happens if there are
/// two consecutive newlines in one connected
/// documentation span.",
        false,
    );
}

#[test]
fn reflow_shorter_than_limit() {
    let chunk = fluff_chunk(&["This module contains documentation that is ok for one line"]);
    reflow_check(&chunk, 80, "", true);
}

#[test]
fn reflow_multiple_lines() {
    let chunk = fluff_chunk(&[
        "This module contains documentation that is broken",
        "into multiple short lines resulting in multiple spans.",
    ]);
    reflow_check(
        &chunk,
        43,
        "This module contains documentation that
/// is broken into multiple short lines
/// resulting in multiple spans.",
        false,
    );
}

#[test]
fn reflow_markdown() {
    let chunk = fluff_chunk(&[
        "Possible **ways** to run __rustc__ and request various parts of LTO.",
        " `markdown` syntax which leads to __unbreakables__?  With emojis: 🚤w🌴x🌋y🍈z🍉0.",
    ]);
    reflow_check(
        &chunk,
        60,
        "Possible **ways** to run __rustc__ and request various
/// parts of LTO. `markdown` syntax which leads to
/// __unbreakables__? With emojis: 🚤w🌴x🌋y🍈z🍉0.",
        false,
    );
}

#[test]
fn reflow_two_paragraphs_not_required() {
    let chunk = fluff_chunk(&[
        "A short paragraph followed by another one.",
        "",
        "Surprise, we have another parapgrah.",
    ]);
    reflow_check(&chunk, 80, "", true);
}

#[test]
fn reflow_two_short_lines() {
    let chunk = fluff_chunk(&[
        "A short paragraph followed by two lines.",
        "Surprise, we have more lines here.",
    ]);
    reflow_check(
        &chunk,
        70,
        "A short paragraph followed by two lines. Surprise, we have more
/// lines here.",
        false,
    );
}

#[test]
fn reflow_doc_short() {
    let chunk = chyrp_chunk(&["a", "b", "c"]);
    reflow_check(&chunk, 40, "a b c", false);
}

#[test]
fn reflow_doc_indent_middle() {
    let chunk = chyrp_chunk(&["First line", "     Second line", "         third line"]);
    reflow_check(
        &chunk,
        28,
        "First line Second\"#]
#[doc=r#\"line third line",
        false,
    );
}

#[test]
fn reflow_doc_long() {
    let chunk =
        chyrp_chunk(&["One line which is quite long and needs to be reflown in another line."]);
    reflow_check(
        &chunk,
        40,
        "One line which is quite long\"#]
#[doc=r#\"and needs to be reflown in\"#]
#[doc=r#\"another line.",
        false,
    );
}

#[test]
fn reflow_markdown_two_paragraphs() {
    let chunk = fluff_chunk(&[
        "Possible __ways__ to run __rustc__ and request various parts of LTO.",
        "",
        "Some more text after the newline which **represents** a paragraph",
    ]);
    let expected = vec![
        "Possible __ways__ to run __rustc__ and request various
/// parts of LTO.",
        "Some more text after the newline which **represents** a
/// paragraph",
    ];
    let cfg = ReflowConfig { max_line_length: 60 };
    let suggestions = reflow(&ORIGIN, &chunk, &cfg);
    assert_eq!(suggestions.len(), 2);
    for (sug, expected) in suggestions.iter().zip(expected) {
        assert_eq!(sug.replacements.len(), 1);
        assert_eq!(sug.replacements[0].as_str(), expected);
    }
}

#[test]
fn reflow_example_lines_fit_width() {
    let chunk = fluff_chunk(&["This module contains documentation that is too long for one line and moreover, it spans over mulitple lines such that we can test our rewrapping algorithm."]);
    let cfg = ReflowConfig { max_line_length: 44 };
    let suggestions = reflow(&ORIGIN, &chunk, &cfg);
    assert_eq!(suggestions.len(), 1);
    let text = &suggestions[0].replacements[0];
    assert!(text.starts_with("This module contains documentation that"));
    for (i, line) in text.lines().enumerate() {
        // Every line but the first carries the "/// " decoration in front
        // of its text, which stands at column 3.
        let content = if i == 0 { line } else { line.strip_prefix("/// ").unwrap() };
        assert!(3 + content.chars().count() <= 44);
        assert!(!content.starts_with(' ') && !content.ends_with(' '));
    }
    let words: Vec<&str> = text
        .lines()
        .map(|l| l.strip_prefix("/// ").unwrap_or(l))
        .flat_map(|l| l.split_whitespace())
        .collect();
    let source_words: Vec<&str> = "This module contains documentation that is too long for one line and moreover, it spans over mulitple lines such that we can test our rewrapping algorithm.".split_whitespace().collect();
    assert_eq!(words, source_words);
}

#[test]
fn reflow_width_exactly_filled_stays_on_line() {
    // indentation 3 + "aaaa bbbb" (9) = 12: fits a width of 12 exactly.
    let chunk = fluff_chunk(&["aaaa", "bbbb"]);
    reflow_check(&chunk, 12, "aaaa bbbb", false);
    // At 11 the second word goes to its own line, which the source already has.
    reflow_check(&chunk, 11, "", true);
}

#[test]
fn reflow_idempotent_on_own_output() {
    let chunk = fluff_chunk(&["alpha beta gamma delta epsilon zeta eta theta"]);
    let cfg = ReflowConfig { max_line_length: 25 };
    let first = reflow(&ORIGIN, &chunk, &cfg);
    assert_eq!(first.len(), 1);
    let rewrapped: Vec<String> = first[0].replacements[0]
        .lines()
        .map(|l| l.strip_prefix("/// ").unwrap_or(l).to_string())
        .collect();
    let refs: Vec<&str> = rewrapped.iter().map(|s| s.as_str()).collect();
    let again = fluff_chunk(&refs);
    assert_eq!(reflow(&ORIGIN, &again, &cfg).len(), 0);
}

#[test]
fn reflow_keeps_emphasis_and_links_on_one_line() {
    let chunk = fluff_chunk(&["Some words then *a long emphasised part* and [a link text](https://example.com) end."]);
    let cfg = ReflowConfig { max_line_length: 20 };
    let suggestions = reflow(&ORIGIN, &chunk, &cfg);
    assert_eq!(suggestions.len(), 1);
    let text = &suggestions[0].replacements[0];
    assert!(text.lines().any(|l| l.contains("*a long emphasised part*")));
    assert!(text.lines().any(|l| l.contains("[a link text](https://example.com)")));
}

#[test]
fn reflow_heading_is_not_reflown() {
    let chunk = fluff_chunk(&["# A heading that is rather long for the width", "", "short"]);
    reflow_check(&chunk, 20, "", true);
}

#[test]
fn reflow_suggestion_fields() {
    let chunk = fluff_chunk(&["aaaa", "bbbb"]);
    let cfg = ReflowConfig { max_line_length: 80 };
    let suggestions = reflow(&ORIGIN, &chunk, &cfg);
    assert_eq!(suggestions.len(), 1);
    let s = &suggestions[0];
    assert_eq!(s.detector, Detector::Reflow);
    assert_eq!(s.origin, ORIGIN);
    assert_eq!(s.range, Range { start: 0, end: 9 });
    // The `///` variant reports its start one column to the right.
    assert_eq!(s.span.start, LineColumn { line: 1, column: 4 });
    assert_eq!(s.span.end, LineColumn { line: 2, column: 6 });
    assert!(s.description.is_none());
}

#[test]
fn store_suggestion_without_source_location() {
    let chunk = Chunk::new("abc def".to_string(), CommentVariant::CommonMark, vec![]).unwrap();
    let r = store_suggestion(&chunk, &ORIGIN, 0, 7, &vec![], 3);
    assert!(matches!(r, Err(0)));
}

#[test]
fn store_suggestion_unchanged_returns_end() {
    let chunk = fluff_chunk(&["abc def"]);
    let r = store_suggestion(&chunk, &ORIGIN, 0, 7, &vec![], 80);
    assert!(matches!(r, Err(7)));
}

#[test]
fn chunk_rejects_fragment_outside_text() {
    let f = Fragment {
        range: Range { start: 0, end: 9 },
        span: Span {
            start: LineColumn { line: 1, column: 0 },
            end: LineColumn { line: 1, column: 8 },
        },
    };
    assert!(Chunk::new("short".to_string(), CommentVariant::CommonMark, vec![f]).is_none());
}

#[test]
fn covered_spans_inside_and_outside_mapping() {
    let chunk = fluff_chunk(&["first line", "second line"]);
    let both = chunk.find_covered_spans(Range { start: 3, end: 15 });
    assert_eq!(both.len(), 2);
    assert_eq!(both[0].start, LineColumn { line: 1, column: 3 });
    assert_eq!(both[1].start, LineColumn { line: 2, column: 3 });
    // The line break between the two fragments is mapped nowhere.
    assert!(chunk.find_covered_spans(Range { start: 10, end: 11 }).is_empty());
    // An empty range inside a fragment lies within that fragment.
    assert_eq!(chunk.find_covered_spans(Range { start: 4, end: 4 }).len(), 1);
    // A range past all fragments has no source location.
    assert!(chunk.find_covered_spans(Range { start: 22, end: 22 }).is_empty());
}

fn document() -> Documentation {
    Documentation {
        entries: vec![
            DocEntry {
                origin: ContentOrigin { id: 2 },
                chunks: vec![fluff_chunk(&["b b b b b b b b b b b b b"])],
            },
            DocEntry {
                origin: ContentOrigin { id: 1 },
                chunks: vec![
                    fluff_chunk(&["a a a a a a a a a a a a a"]),
                    fluff_chunk(&["c", "c"]),
                ],
            },
        ],
    }
}

#[test]
fn check_disabled_yields_nothing() {
    let set = check(&document(), &Config { reflow: None }).unwrap();
    assert_eq!(set.total_count(), 0);
}

#[test]
fn check_sorts_by_origin() {
    let cfg = Config { reflow: Some(ReflowConfig { max_line_length: 12 }) };
    let set = check(&document(), &cfg).unwrap();
    assert_eq!(set.total_count(), 3);
    let origins: Vec<usize> = set.suggestions().iter().map(|s| s.origin.id).collect();
    assert_eq!(origins, vec![1, 1, 2]);
    let lines: Vec<usize> = set.suggestions().iter().map(|s| s.span.start.line).collect();
    assert_eq!(lines, vec![1, 1, 1]);
}

#[test]
fn check_twice_gives_identical_output() {
    let cfg = Config { reflow: Some(ReflowConfig { max_line_length: 12 }) };
    let a = check(&document(), &cfg).unwrap();
    let b = check(&document(), &cfg).unwrap();
    assert_eq!(format!("{:?}", a), format!("{:?}", b));
}

#[test]
fn reflow_checker_over_document() {
    let cfg = ReflowConfig { max_line_length: 12 };
    let set = Reflow::check(&document(), &cfg).unwrap();
    // File by file, in document order, before any sorting.
    let origins: Vec<usize> = set.suggestions().iter().map(|s| s.origin.id).collect();
    assert_eq!(origins, vec![2, 1, 1]);
}

fn one_suggestion(origin: usize) -> Suggestion {
    Suggestion {
        detector: Detector::Reflow,
        origin: ContentOrigin { id: origin },
        range: Range { start: 0, end: 1 },
        span: Span {
            start: LineColumn { line: 1, column: 0 },
            end: LineColumn { line: 1, column: 0 },
        },
        replacements: vec!["x".to_string()],
        description: None,
    }
}

#[test]
fn join_adds_counts() {
    let mut a = SuggestionSet::from_suggestions(vec![one_suggestion(1)]);
    let b = SuggestionSet::from_suggestions(vec![one_suggestion(2)]);
    a.join(b);
    assert_eq!(a.total_count(), 2);
    // Equal suggestions from two checkers are both kept.
    let c = SuggestionSet::from_suggestions(vec![one_suggestion(1)]);
    a.join(c);
    assert_eq!(a.total_count(), 3);
}

#[test]
fn sort_orders_by_origin_then_span() {
    let mut late = one_suggestion(1);
    late.span.start = LineColumn { line: 3, column: 0 };
    let mut early = one_suggestion(1);
    early.span.start = LineColumn { line: 1, column: 5 };
    let mut set = SuggestionSet::from_suggestions(vec![one_suggestion(4), late, early]);
    set.sort();
    let keys: Vec<(usize, usize, usize)> = set
        .suggestions()
        .iter()
        .map(|s| (s.origin.id, s.span.start.line, s.span.start.column))
        .collect();
    assert_eq!(keys, vec![(1, 1, 5), (1, 3, 0), (4, 1, 0)]);
}

#[test]
fn variant_decorations() {
    assert_eq!(CommentVariant::TripleSlash.prefix_chars(), vec!['/', '/', '/', ' ']);
    assert_eq!(CommentVariant::MacroDocEq(2).prefix_chars().iter().collect::<String>(), "#[doc=r##\"");
    assert_eq!(CommentVariant::MacroDocEq(2).suffix_chars().iter().collect::<String>(), "\"##]");
    assert_eq!(CommentVariant::MacroDocEq(2).prefix_len(), 10);
    assert_eq!(CommentVariant::CommonMark.prefix_len(), 0);
}

#[test]
fn reflow_indentations() {
    // "    /// A comment ...": mapped at column 7, one early like every `///` line.
    let lines: Vec<String> = [
        "A comment with indentation that spans over",
        "two lines and should be rewrapped.",
    ]
    .iter()
    .map(|l| l.to_string())
    .collect();
    let chunk = chunk_of(&lines, CommentVariant::TripleSlash, |_| 7);
    let expected = "A comment with indentation
    /// that spans over two lines
    /// and should be rewrapped.";
    reflow_check(&chunk, 35, expected, false);
}

#[test]
fn reflow_markdown_two_paragraphs_doc() {
    let chunk = chyrp_chunk(&[
        "A long comment that spans over two lines.",
        "",
        "With a second part that is fine",
    ]);
    let cfg = ReflowConfig { max_line_length: 45 };
    let suggestions = reflow(&ORIGIN, &chunk, &cfg);
    let sug = suggestions.first().expect("Contains a suggestion. qed");
    let replacement = sug.replacements.first().expect("An replacement exists. qed");
    assert_eq!(replacement.as_str(), "A long comment that spans over two\"#]\n#[doc=r#\"lines.");
    assert_eq!(suggestions.len(), 1);
}

#[test]
fn reflow_inner_trailing_space_is_a_change() {
    let chunk = Chunk::new("a ".to_string(), CommentVariant::CommonMark, vec![]).unwrap();
    let r = reflow_inner(chunk.as_str(), Range { start: 0, end: 2 }, &vec![], &vec![0], 80, &CommentVariant::CommonMark);
    assert_eq!(r.as_deref(), Some("a"));
}

fn ev(kind: MarkupKind, start: usize, end: usize) -> MarkupEvent {
    MarkupEvent { kind, start, end }
}

#[test]
fn reflow_events_paragraph_and_block() {
    // "a\nb\n# h\nc\nd": a paragraph, a heading, and a paragraph cut by nothing.
    let chunk = chyrp_chunk(&["a", "b", "# h", "c", "d"]);
    let cfg = ReflowConfig { max_line_length: 40 };
    let evs = vec![
        ev(MarkupKind::Start(TagKind::Paragraph), 0, 4),
        ev(MarkupKind::Text, 0, 3),
        ev(MarkupKind::End(TagKind::Paragraph), 0, 4),
        ev(MarkupKind::Start(TagKind::Heading), 4, 8),
        ev(MarkupKind::End(TagKind::Heading), 4, 8),
        ev(MarkupKind::Start(TagKind::Paragraph), 8, 11),
        ev(MarkupKind::End(TagKind::Paragraph), 8, 11),
    ];
    let found = reflow_events(&ORIGIN, &chunk, &evs, &cfg);
    let texts: Vec<&str> = found.iter().map(|s| s.replacements[0].as_str()).collect();
    assert_eq!(texts, vec!["a b", "c d"]);
}

#[test]
fn reflow_events_keep_unbreakable_whole() {
    let chunk = chyrp_chunk(&["xx *a b* yy"]);
    let cfg = ReflowConfig { max_line_length: 14 };
    let evs = vec![
        ev(MarkupKind::Start(TagKind::Paragraph), 0, 11),
        ev(MarkupKind::Start(TagKind::Emphasis), 3, 8),
        ev(MarkupKind::End(TagKind::Emphasis), 3, 8),
        ev(MarkupKind::End(TagKind::Paragraph), 0, 11),
    ];
    let found = reflow_events(&ORIGIN, &chunk, &evs, &cfg);
    assert_eq!(found.len(), 1);
    // Width 14 less indentation 9 leaves 5: "xx *a" would fit, but "*a b*" stays whole.
    assert_eq!(found[0].replacements[0], "xx\"#]\n#[doc=r#\"*a b*\"#]\n#[doc=r#\"yy");
}

#[test]
fn classify_written_events() {
    let k = |s: &str| classify(&s.chars().collect());
    assert_eq!(k("Start(Paragraph)"), MarkupKind::Start(TagKind::Paragraph));
    assert_eq!(k("End(Emphasis)"), MarkupKind::End(TagKind::Emphasis));
    assert_eq!(
        k("Start(Link(Inline, Borrowed(\"https://x\"), Borrowed(\"\")))"),
        MarkupKind::Start(TagKind::Link)
    );
    assert_eq!(k("Start(Heading(H1, None, []))"), MarkupKind::Start(TagKind::Heading));
    assert_eq!(k("End(TableHead)"), MarkupKind::End(TagKind::TableHead));
    assert_eq!(k("Start(Table([]))"), MarkupKind::Start(TagKind::Table));
    assert_eq!(k("Text(Borrowed(\"Start(Paragraph)\"))"), MarkupKind::Text);
    assert_eq!(k("HardBreak"), MarkupKind::HardBreak);
    assert_eq!(k("Rule"), MarkupKind::Rule);
    assert_eq!(k("Start(Nonsense)"), MarkupKind::Unrecognized);
}

#[test]
fn reflow_inner_crlf_lines_already_wrapped() {
    let text = "a\r\nb";
    let r = reflow_inner(text, Range { start: 0, end: 4 }, &vec![], &vec![0], 1, &CommentVariant::CommonMark);
    assert!(r.is_none());
    // A changed layout still counts "\r\n" as one line break.
    let r = reflow_inner(text, Range { start: 0, end: 4 }, &vec![], &vec![0], 80, &CommentVariant::CommonMark);
    assert_eq!(r.as_deref(), Some("a b"));
}
