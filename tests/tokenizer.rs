use spellcheck_core::tokenize::tokenize;

const TEXT: &str = "With markdown removed, for sure.";
const TOKENS: [&str; 5] = ["With", "markdown", "removed", "for", "sure"];

#[test]
fn tokens() {
    let ranges = tokenize(TEXT);
    for (range, expect) in ranges.into_iter().zip(TOKENS.iter()) {
        assert_eq!(&&TEXT[range.start..range.end], expect);
    }
}

#[test]
fn tokens_count_matches() {
    let ranges = tokenize(TEXT);
    assert_eq!(ranges.len(), 5);
}

#[test]
fn tokens_keep_last_word_without_punctuation() {
    let ranges = tokenize("one two three");
    assert_eq!(ranges.len(), 3);
    assert_eq!((ranges[2].start, ranges[2].end), (8, 13));
}

#[test]
fn tokens_empty_and_only_delimiters() {
    assert!(tokenize("").is_empty());
    assert!(tokenize(" ,.-/`\n\r ").is_empty());
}

#[test]
fn tokens_count_characters_not_bytes() {
    // "é" is two bytes in UTF-8 but one character.
    let ranges = tokenize("café au lait");
    let got: Vec<(usize, usize)> = ranges.iter().map(|r| (r.start, r.end)).collect();
    assert_eq!(got, vec![(0, 4), (5, 7), (8, 12)]);
}

#[test]
fn tokens_reassemble_non_ignored_content() {
    let text = "Hello, (wide) world! a-b/c `code` #tag";
    let chars: Vec<char> = text.chars().collect();
    let ranges = tokenize(text);
    let joined: String = ranges
        .iter()
        .flat_map(|r| chars[r.start..r.end].iter())
        .collect();
    let expected: String = "Hellowideworldabccodetag".to_string();
    assert_eq!(joined, expected);
    assert!(ranges.iter().all(|r| r.start < r.end));
}
