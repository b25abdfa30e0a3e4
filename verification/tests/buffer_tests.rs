use editor_core::buffer::TextBuffer;

#[test]
fn new_buffer_is_empty_with_one_line() {
    let b = TextBuffer::new();
    assert_eq!(b.len_chars(), 0);
    assert_eq!(b.line_count(), 1);
    assert_eq!(b.get_text(), "");
    assert_eq!(b.line(0), "");
}

#[test]
fn from_text_keeps_characters() {
    let b = TextBuffer::from_text("ab\ncd");
    assert_eq!(b.len_chars(), 5);
    assert_eq!(b.get_text(), "ab\ncd");
}

#[test]
fn insert_places_text_at_offset() {
    let mut b = TextBuffer::from_text("ad");
    b.insert(1, "bc");
    assert_eq!(b.get_text(), "abcd");
}

#[test]
fn delete_removes_range() {
    let mut b = TextBuffer::from_text("abcd");
    b.delete(1, 3);
    assert_eq!(b.get_text(), "ad");
}

#[test]
fn delete_clamps_end_to_length() {
    let mut b = TextBuffer::from_text("abcd");
    b.delete(2, 100);
    assert_eq!(b.get_text(), "ab");
}

#[test]
fn delete_of_reversed_range_is_noop() {
    let mut b = TextBuffer::from_text("abcd");
    b.delete(3, 1);
    assert_eq!(b.get_text(), "abcd");
}

#[test]
fn lines_are_split_on_separators() {
    let b = TextBuffer::from_text("fn main() {\n    x\n}\n");
    assert_eq!(b.line_count(), 4);
    assert_eq!(b.line(0), "fn main() {");
    assert_eq!(b.line(1), "    x");
    assert_eq!(b.line(2), "}");
    assert_eq!(b.line(3), "");
    assert_eq!(b.line_len(0), 11);
    assert_eq!(b.line_len(3), 0);
}

#[test]
fn line_to_char_gives_line_starts() {
    let b = TextBuffer::from_text("ab\ncd\nef");
    assert_eq!(b.line_to_char(0), 0);
    assert_eq!(b.line_to_char(1), 3);
    assert_eq!(b.line_to_char(2), 6);
}

#[test]
fn char_to_line_counts_separators_before_offset() {
    let b = TextBuffer::from_text("ab\ncd");
    assert_eq!(b.char_to_line(0), 0);
    assert_eq!(b.char_to_line(2), 0);
    assert_eq!(b.char_to_line(3), 1);
    assert_eq!(b.char_to_line(5), 1);
}

#[test]
fn wide_characters_are_single_units() {
    let mut b = TextBuffer::from_text("中文\n字");
    assert_eq!(b.len_chars(), 4);
    assert_eq!(b.line_len(0), 2);
    b.delete(1, 2);
    assert_eq!(b.get_text(), "中\n字");
}

#[test]
fn insert_of_separator_adds_a_line() {
    let mut b = TextBuffer::from_text("abcd");
    assert_eq!(b.line_count(), 1);
    b.insert(2, "\n");
    assert_eq!(b.line_count(), 2);
    assert_eq!(b.line(0), "ab");
    assert_eq!(b.line(1), "cd");
}
