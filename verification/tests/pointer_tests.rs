use editor_core::buffer::TextBuffer;
use editor_core::pointer::handle_mouse_click;

// The mapper subtracts a header height of 41 pixels from y and a gutter
// width of 8 pixels from x before scanning.
const LINE_HEIGHT: usize = 26;
const CHAR_WIDTH: usize = 10;

fn x_at(width: usize) -> usize {
    width + 8
}

fn y_on(line: usize) -> usize {
    41 + line * LINE_HEIGHT
}

#[test]
fn click_on_wide_character_line() {
    let buffer = TextBuffer::from_text("a中b");
    // Just past `a`, whose width is one cell of 10 pixels.
    let (line, col) = handle_mouse_click(x_at(10), y_on(0), LINE_HEIGHT, CHAR_WIDTH, &buffer);
    assert_eq!((line, col), (0, 1));
    // Inside the double-width character: still column 1, never splitting it.
    let (line, col) = handle_mouse_click(x_at(25), y_on(0), LINE_HEIGHT, CHAR_WIDTH, &buffer);
    assert_eq!((line, col), (0, 1));
    // Just past the double-width character.
    let (line, col) = handle_mouse_click(x_at(30), y_on(0), LINE_HEIGHT, CHAR_WIDTH, &buffer);
    assert_eq!((line, col), (0, 2));
}

#[test]
fn click_beyond_line_width_clamps_to_line_end() {
    let buffer = TextBuffer::from_text("ab\ncd");
    let (line, col) = handle_mouse_click(x_at(500), y_on(0), LINE_HEIGHT, CHAR_WIDTH, &buffer);
    assert_eq!((line, col), (0, 2));
}

#[test]
fn click_picks_line_from_vertical_position() {
    let buffer = TextBuffer::from_text("ab\ncd\nef");
    let (line, _) = handle_mouse_click(x_at(0), y_on(1), LINE_HEIGHT, CHAR_WIDTH, &buffer);
    assert_eq!(line, 1);
    let (line, _) = handle_mouse_click(x_at(0), y_on(2) + LINE_HEIGHT - 1, LINE_HEIGHT, CHAR_WIDTH, &buffer);
    assert_eq!(line, 2);
}

#[test]
fn click_below_last_line_clamps_to_last_line() {
    let buffer = TextBuffer::from_text("ab\ncd");
    let (line, col) = handle_mouse_click(x_at(0), y_on(50), LINE_HEIGHT, CHAR_WIDTH, &buffer);
    assert_eq!(line, 1);
    assert!(col <= 2);
}

#[test]
fn click_above_origin_lands_on_first_line() {
    let buffer = TextBuffer::from_text("ab");
    let (line, col) = handle_mouse_click(0, 0, LINE_HEIGHT, CHAR_WIDTH, &buffer);
    assert_eq!((line, col), (0, 0));
}

#[test]
fn click_on_empty_buffer_is_origin() {
    let buffer = TextBuffer::new();
    let (line, col) = handle_mouse_click(x_at(37), y_on(3), LINE_HEIGHT, CHAR_WIDTH, &buffer);
    assert_eq!((line, col), (0, 0));
}

#[test]
fn click_in_first_cell_is_column_zero() {
    let buffer = TextBuffer::from_text("abcd");
    let (_, col) = handle_mouse_click(x_at(9), y_on(0), LINE_HEIGHT, CHAR_WIDTH, &buffer);
    assert_eq!(col, 0);
    let (_, col) = handle_mouse_click(x_at(10), y_on(0), LINE_HEIGHT, CHAR_WIDTH, &buffer);
    assert_eq!(col, 1);
}
