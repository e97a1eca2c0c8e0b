use cargo_mend::line_display::build_line_display;
use cargo_mend::line_display::is_whitespace_char;
use cargo_mend::line_display::line_display;
use cargo_mend::line_display::source_line_at;

#[test]
fn lines_are_counted_from_one_and_lose_their_endings() {
    let text = "first\r\nsecond\n\nfourth\r";
    assert_eq!(source_line_at(text, 1), "first");
    assert_eq!(source_line_at(text, 2), "second");
    assert_eq!(source_line_at(text, 3), "");
    // A carriage return without a line feed stays.
    assert_eq!(source_line_at(text, 4), "fourth\r");
    assert_eq!(source_line_at(text, 5), "");
    // Line zero reads as the first line.
    assert_eq!(source_line_at(text, 0), "first");
    assert_eq!(source_line_at("only\n", 2), "");
}

#[test]
fn a_line_finding_starts_at_the_first_word() {
    let text = "mod a;\n    pub use child::Thing;\n";
    let display = build_line_display(text, 2);
    assert_eq!(display.line, 2);
    assert_eq!(display.source_line, "    pub use child::Thing;");
    assert_eq!(display.column, 5);
    assert_eq!(display.highlight_len, 3);
}

#[test]
fn columns_and_highlights_count_bytes() {
    let text = "\u{3000}\tüber alles\n";
    let display = build_line_display(text, 1);
    // U+3000 takes three bytes and the tab one.
    assert_eq!(display.column, 5);
    // "über" takes five bytes.
    assert_eq!(display.highlight_len, 5);
    let blank = build_line_display("   \n", 1);
    assert_eq!(blank.column, 4);
    assert_eq!(blank.highlight_len, 1);
    let missing = build_line_display("x", 9);
    assert_eq!(missing.source_line, "");
    assert_eq!((missing.column, missing.highlight_len), (1, 1));
}

#[test]
fn span_displays_cover_the_span_on_its_line() {
    let text = "fn a() {}\npub fn b() {}\n";
    let d = line_display(text, 2, 0, 2, 3);
    assert_eq!((d.line, d.column, d.highlight_len), (2, 1, 3));
    assert_eq!(d.source_line, "pub fn b() {}");
    let multi = line_display(text, 1, 4, 2, 1);
    assert_eq!(multi.highlight_len, 1);
    let empty = line_display(text, 1, 4, 1, 4);
    assert_eq!(empty.highlight_len, 1);
}

#[test]
fn whitespace_matches_std() {
    for c in ['\t', '\n', '\u{0B}', '\u{0C}', '\r', ' ', '\u{85}', '\u{A0}', '\u{1680}', '\u{2000}', '\u{200A}', '\u{2028}', '\u{2029}', '\u{202F}', '\u{205F}', '\u{3000}', 'a', '\u{200B}', '\u{FEFF}', '_'] {
        assert_eq!(is_whitespace_char(c), c.is_whitespace(), "{c:?}");
    }
}
