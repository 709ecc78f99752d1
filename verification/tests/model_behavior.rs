use outliner::model::{char_to_byte_index, split_indent, utf16_to_char_index, Document, SelectionRange};

#[test]
fn from_text_splits_lines_and_counts_indent() {
    let d = Document::from_text("root\n child\n\t\tgrand\nsecond");
    assert_eq!(d.lines.len(), 4);
    assert_eq!(d.lines[0].text, "root");
    assert_eq!(d.lines[0].indent, 0);
    assert_eq!(d.lines[1].text, "child");
    assert_eq!(d.lines[1].indent, 1);
    assert_eq!(d.lines[2].text, "grand");
    assert_eq!(d.lines[2].indent, 2);
    assert_eq!(d.lines[3].text, "second");
    assert_eq!(d.lines[3].indent, 0);
    assert_eq!(d.next_id, 4);
    for (i, line) in d.lines.iter().enumerate() {
        assert_eq!(line.id, i as u64);
        assert!(!line.collapsed);
    }
}

#[test]
fn from_text_mixed_indent_counts_one_unit_per_character() {
    let d = Document::from_text(" \tboth\n\u{3000}wide");
    assert_eq!(d.lines[0].indent, 2);
    assert_eq!(d.lines[0].text, "both");
    assert_eq!(d.lines[1].indent, 1);
    assert_eq!(d.lines[1].text, "wide");
}

#[test]
fn from_text_empty_blob_is_one_empty_line() {
    let d = Document::from_text("");
    assert_eq!(d.lines.len(), 1);
    assert_eq!(d.lines[0].text, "");
    assert_eq!(d.next_id, 1);
}

#[test]
fn from_text_trailing_newline_gives_empty_final_line() {
    let d = Document::from_text("a\n");
    assert_eq!(d.lines.len(), 2);
    assert_eq!(d.lines[1].text, "");
}

#[test]
fn to_text_normalizes_indent_to_tabs() {
    let d = Document::from_text("a\n  b");
    assert_eq!(d.to_text(), "a\n\t\tb");
}

#[test]
fn round_trip_restores_text_and_indent() {
    let d = Document::from_text("top\n  kid\n\tother\nend");
    let d2 = Document::from_text(&d.to_text());
    assert_eq!(d.lines.len(), d2.lines.len());
    for (a, b) in d.lines.iter().zip(d2.lines.iter()) {
        assert_eq!(a.text, b.text);
        assert_eq!(a.indent, b.indent);
    }
}

#[test]
fn next_line_id_counts_up() {
    let mut d = Document::from_text("a\nb");
    assert_eq!(d.next_line_id(), 2);
    assert_eq!(d.next_line_id(), 3);
    assert_eq!(d.next_id, 4);
}

#[test]
fn split_indent_takes_leading_whitespace_run() {
    assert_eq!(split_indent("  x y"), (2, "x y"));
    assert_eq!(split_indent("\t\t\tz"), (3, "z"));
    assert_eq!(split_indent("plain"), (0, "plain"));
    assert_eq!(split_indent(""), (0, ""));
    assert_eq!(split_indent("a b"), (0, "a b"));
}

#[test]
fn char_to_byte_index_handles_multibyte() {
    // 'é' is two bytes, '☃' three.
    assert_eq!(char_to_byte_index("héllo", 0), 0);
    assert_eq!(char_to_byte_index("héllo", 1), 1);
    assert_eq!(char_to_byte_index("héllo", 2), 3);
    assert_eq!(char_to_byte_index("héllo", 5), 6);
    assert_eq!(char_to_byte_index("héllo", 99), 6);
    assert_eq!(char_to_byte_index("a☃b", 2), 4);
}

#[test]
fn utf16_to_char_index_handles_surrogate_pairs() {
    // '𝄞' takes two UTF-16 units; 'a' and 'é' take one each.
    assert_eq!(utf16_to_char_index("a𝄞b", 0), 0);
    assert_eq!(utf16_to_char_index("a𝄞b", 1), 1);
    assert_eq!(utf16_to_char_index("a𝄞b", 2), 2);
    assert_eq!(utf16_to_char_index("a𝄞b", 3), 2);
    assert_eq!(utf16_to_char_index("a𝄞b", 4), 3);
    assert_eq!(utf16_to_char_index("a𝄞b", 99), 3);
    assert_eq!(utf16_to_char_index("aé", 2), 2);
}

#[test]
fn caret_builds_collapsed_selection() {
    let s = SelectionRange::caret(3, 7);
    assert_eq!(s.anchor.line, 3);
    assert_eq!(s.anchor.column, 7);
    assert_eq!(s.focus, s.anchor);
    assert!(s.is_collapsed());
}

#[test]
fn normalized_orders_by_line_then_column() {
    let mut s = SelectionRange::caret(2, 5);
    s.focus.line = 1;
    s.focus.column = 9;
    let (first, second) = s.normalized();
    assert_eq!((first.line, first.column), (1, 9));
    assert_eq!((second.line, second.column), (2, 5));

    let mut t = SelectionRange::caret(4, 8);
    t.focus.column = 2;
    let (a, b) = t.normalized();
    assert_eq!((a.line, a.column), (4, 2));
    assert_eq!((b.line, b.column), (4, 8));
    assert!(!t.is_collapsed());
}
