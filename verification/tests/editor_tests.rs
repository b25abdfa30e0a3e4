use editor_core::editor::Editor;

fn editor_with(text: &str) -> Editor {
    let mut ed = Editor::new();
    ed.insert_text(text);
    ed.set_cursor_position(0, 0);
    ed
}

#[test]
fn new_editor_is_empty() {
    let ed = Editor::new();
    assert_eq!(ed.get_text(), "");
    assert_eq!(ed.get_cursor_position(), (0, 0));
}

#[test]
fn insert_advances_column() {
    let mut ed = Editor::new();
    ed.insert_text("hello");
    assert_eq!(ed.get_text(), "hello");
    assert_eq!(ed.get_cursor_position(), (0, 5));
}

#[test]
fn insert_with_newline_moves_to_next_line_start() {
    let mut ed = Editor::new();
    ed.insert_text("ab\ncd");
    assert_eq!(ed.get_text(), "ab\ncd");
    assert_eq!(ed.get_cursor_position(), (1, 0));
}

#[test]
fn insert_then_delete_restores_text() {
    let mut ed = editor_with("abcdef");
    ed.set_cursor_position(0, 2);
    ed.insert_text("XYZ");
    assert_eq!(ed.get_text(), "abXYZcdef");
    ed.set_cursor_position(0, 2);
    ed.move_cursor_delete(3);
    assert_eq!(ed.get_text(), "abcdef");
}

#[test]
fn left_at_origin_is_noop() {
    let mut ed = editor_with("ab\ncd");
    ed.move_cursor_left();
    assert_eq!(ed.get_cursor_position(), (0, 0));
    assert_eq!(ed.get_text(), "ab\ncd");
}

#[test]
fn up_from_first_line_is_noop() {
    let mut ed = editor_with("ab\ncd");
    ed.set_cursor_position(0, 1);
    ed.move_cursor_up();
    assert_eq!(ed.get_cursor_position(), (0, 1));
}

#[test]
fn down_from_last_line_is_noop() {
    let mut ed = editor_with("ab\ncd");
    ed.set_cursor_position(1, 1);
    ed.move_cursor_down();
    assert_eq!(ed.get_cursor_position(), (1, 1));
}

#[test]
fn right_at_buffer_end_is_noop() {
    let mut ed = editor_with("ab\ncd");
    ed.set_cursor_position(1, 2);
    ed.move_cursor_right();
    assert_eq!(ed.get_cursor_position(), (1, 2));
}

#[test]
fn right_wraps_to_next_line_start() {
    let mut ed = editor_with("ab\ncd");
    ed.set_cursor_position(0, 2);
    ed.move_cursor_right();
    assert_eq!(ed.get_cursor_position(), (1, 0));
}

#[test]
fn left_wraps_to_previous_line_end() {
    let mut ed = editor_with("ab\ncd");
    ed.set_cursor_position(1, 0);
    ed.move_cursor_left();
    assert_eq!(ed.get_cursor_position(), (0, 2));
}

#[test]
fn down_clamps_column_to_shorter_line() {
    let mut ed = editor_with("long line!\nab");
    ed.set_cursor_position(0, 9);
    ed.move_cursor_down();
    assert_eq!(ed.get_cursor_position(), (1, 2));
}

#[test]
fn up_clamps_column_to_shorter_line() {
    let mut ed = editor_with("ab\nlong line!");
    ed.set_cursor_position(1, 9);
    ed.move_cursor_up();
    assert_eq!(ed.get_cursor_position(), (0, 2));
}

#[test]
fn enter_splits_line_and_backspace_joins_it() {
    let mut ed = editor_with("hello world");
    ed.set_cursor_position(0, 5);
    ed.move_cursor_enter();
    assert_eq!(ed.get_text(), "hello\n world");
    assert_eq!(ed.get_cursor_position(), (1, 0));
    ed.move_cursor_backspace(1);
    assert_eq!(ed.get_text(), "hello world");
    assert_eq!(ed.get_cursor_position(), (0, 5));
}

#[test]
fn backspace_crosses_line_start() {
    let mut ed = editor_with("ab\ncd");
    ed.set_cursor_position(1, 0);
    ed.move_cursor_backspace(1);
    assert_eq!(ed.get_text(), "abcd");
    assert_eq!(ed.get_cursor_position(), (0, 2));
}

#[test]
fn backspace_at_origin_is_noop() {
    let mut ed = editor_with("ab");
    ed.move_cursor_backspace(3);
    assert_eq!(ed.get_text(), "ab");
    assert_eq!(ed.get_cursor_position(), (0, 0));
}

#[test]
fn backspace_within_line_moves_column() {
    let mut ed = editor_with("abcd");
    ed.set_cursor_position(0, 3);
    ed.move_cursor_backspace(2);
    assert_eq!(ed.get_text(), "ad");
    assert_eq!(ed.get_cursor_position(), (0, 1));
}

#[test]
fn delete_truncates_to_buffer_end() {
    let mut ed = editor_with("abc");
    ed.set_cursor_position(0, 1);
    ed.move_cursor_delete(10);
    assert_eq!(ed.get_text(), "a");
    assert_eq!(ed.get_cursor_position(), (0, 1));
}

#[test]
fn delete_text_removes_forward() {
    let mut ed = editor_with("abcd");
    ed.set_cursor_position(0, 1);
    ed.delete_text(2);
    assert_eq!(ed.get_text(), "ad");
}

#[test]
fn tab_inserts_four_spaces() {
    let mut ed = editor_with("ab");
    ed.set_cursor_position(0, 1);
    ed.move_cursor_tab();
    assert_eq!(ed.get_text(), "a    b");
    assert_eq!(ed.get_cursor_position(), (0, 5));
}

#[test]
fn set_cursor_position_clamps() {
    let mut ed = editor_with("ab\ncd");
    ed.set_cursor_position(100, 100);
    assert_eq!(ed.get_cursor_position(), (1, 2));
}

#[test]
fn is_cursor_at_reports_position() {
    let mut ed = editor_with("ab");
    ed.set_cursor_position(0, 1);
    assert!(ed.is_cursor_at(0, 1));
    assert!(!ed.is_cursor_at(0, 0));
}

#[test]
fn wide_characters_count_one_column() {
    let mut ed = Editor::new();
    ed.insert_text("a中b");
    assert_eq!(ed.get_cursor_position(), (0, 3));
    ed.move_cursor_left();
    assert_eq!(ed.get_cursor_position(), (0, 2));
    ed.move_cursor_backspace(1);
    assert_eq!(ed.get_text(), "ab");
}

#[test]
fn scenario_edit_inside_seeded_program() {
    let mut ed = editor_with("fn main() {\n    println!(\"Hi\");\n}\n");
    ed.move_cursor_right();
    ed.move_cursor_right();
    assert_eq!(ed.get_cursor_position(), (0, 2));
    ed.insert_text("x");
    let text = ed.get_text();
    let line0: String = text.chars().take_while(|c| *c != '\n').collect();
    assert_eq!(line0, "fnx main() {");
}

#[test]
fn scenario_backspace_removes_indentation() {
    let mut ed = editor_with("fn main() {\n    println!(\"Hi\");\n}\n");
    ed.set_cursor_position(1, 4);
    ed.move_cursor_backspace(4);
    assert_eq!(ed.get_text(), "fn main() {\nprintln!(\"Hi\");\n}\n");
    assert_eq!(ed.get_cursor_position(), (1, 0));
}
