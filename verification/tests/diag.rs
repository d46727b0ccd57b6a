use vimyc::diag::{SourceFile, SourceMap, Span};

fn starts(text: &str) -> Vec<u32> {
    SourceFile::compute_line_starts(text)
}

#[test]
fn empty_source_has_one_line() {
    assert_eq!(starts(""), vec![0]);
}

#[test]
fn single_line_without_newline() {
    assert_eq!(starts("cash >= 300"), vec![0]);
}

#[test]
fn counts_from_after_each_newline() {
    //          0123 4567
    assert_eq!(starts("ab\ncd"), vec![0, 3]);
}

#[test]
fn trailing_newline_opens_an_empty_last_line() {
    assert_eq!(starts("ab\n"), vec![0, 3]);
}

/// Line 1 is 18 bytes, line 2 holds a three-byte em-dash, so line starts
/// land at 0, 19, 33 and 48.
fn sample() -> SourceFile {
    SourceFile::new(
        "sample.vy".to_string(),
        "rule build-power {\n  // \u{2014} here\n  require cash\n}".to_string(),
    )
}

fn at(src: &SourceFile, offset: u32) -> (u32, u32) {
    let lc = src.line_column(offset);
    (lc.line, lc.col)
}

#[test]
fn first_byte_is_line_one_column_one() {
    assert_eq!(at(&sample(), 0), (1, 1));
}

#[test]
fn offset_exactly_on_a_line_start() {
    assert_eq!(at(&sample(), 19), (2, 1));
}

#[test]
fn column_counts_characters_not_bytes() {
    // Byte subtraction would say column 9; the em-dash is 3 bytes, 1 char.
    assert_eq!(at(&sample(), 27), (2, 7));
}

#[test]
fn last_line_without_trailing_newline() {
    assert_eq!(at(&sample(), 48), (4, 1));
}

#[test]
fn offset_at_end_of_file_does_not_panic() {
    let src = sample();
    let eof = src.text().len() as u32;
    assert_eq!(at(&src, eof), (4, 2));
}

#[test]
fn empty_source_at_offset_zero() {
    let src = SourceFile::new("empty.vy".to_string(), String::new());
    assert_eq!(at(&src, 0), (1, 1));
}

#[test]
fn line_text_returns_the_line() {
    assert_eq!(sample().line_text(1), "rule build-power {");
}

#[test]
fn line_text_excludes_the_trailing_newline() {
    assert_eq!(sample().line_text(3), "  require cash");
}

#[test]
fn line_text_handles_the_last_line() {
    assert_eq!(sample().line_text(4), "}");
}

#[test]
fn multibyte_characters_do_not_shift_line_starts() {
    // The em-dash is three bytes, so line 2 starts at 5, not 3.
    assert_eq!(starts("a\u{2014}\nb"), vec![0, 5]);
}

#[test]
fn a_span_covers_both_ends() {
    let a = Span { start: 4, end: 9 };
    let b = Span { start: 12, end: 20 };
    assert_eq!(a.to(b), Span { start: 4, end: 20 });
}

#[test]
fn files_are_separated_by_one_byte() {
    let mut map = SourceMap::new();
    assert_eq!(map.add("a.vy".to_string(), "abc".to_string()), 0);
    assert_eq!(map.add("b.vy".to_string(), "de".to_string()), 4);
    assert_eq!(map.files().len(), 2);
    // The end of the first file stays in the first file.
    let (file, lc) = map.resolve(3).expect("resolves");
    assert_eq!(file.name, "a.vy");
    assert_eq!((lc.line, lc.col), (1, 4));
    let (file, lc) = map.resolve(5).expect("resolves");
    assert_eq!(file.name, "b.vy");
    assert_eq!((lc.line, lc.col), (1, 2));
}

#[test]
fn an_empty_map_resolves_nothing() {
    assert!(SourceMap::new().resolve(0).is_none());
}

#[test]
fn line_starts_ascend_and_follow_newlines() {
    let text = "a\n\u{2014}\n\nbc\n";
    let s = starts(text);
    assert_eq!(s, vec![0, 2, 6, 7, 10]);
    let bytes = text.as_bytes();
    for w in s.windows(2) {
        assert!(w[0] < w[1]);
    }
    for &k in &s[1..] {
        assert_eq!(bytes[k as usize - 1], b'\n');
        assert!(text.is_char_boundary(k as usize));
    }
}

#[test]
fn a_map_with_a_file_resolves_every_offset() {
    let mut map = SourceMap::new();
    map.add("a.vy".to_string(), "ab".to_string());
    for offset in [0u32, 1, 2, 3, 40] {
        assert!(map.resolve(offset).is_some());
    }
}
