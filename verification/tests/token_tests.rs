use editor_core::editor::Editor;
use editor_core::token::{SyntaxBlocks, SyntaxType, TextNode};

fn editor_with(text: &str) -> Editor {
    let mut ed = Editor::new();
    ed.insert_text(text);
    ed.set_cursor_position(0, 0);
    ed
}

/// Rebuilds a line's text from its span list, decoding `Range` spans
/// against the buffer's characters.
fn decode_line(buffer_chars: &[char], nodes: &Vec<(SyntaxType, TextNode)>) -> String {
    let mut out = String::new();
    for (_, node) in nodes {
        match node {
            TextNode::Range { start, end } => {
                for i in *start..*end {
                    out.push(buffer_chars[i]);
                }
            }
            TextNode::RunOfChar { len, ch } => {
                for _ in 0..*len {
                    out.push(*ch);
                }
            }
        }
    }
    out
}

fn assert_round_trip(ed: &Editor) -> SyntaxBlocks {
    let blocks = ed.parse_text();
    let text = ed.get_text();
    let chars: Vec<char> = text.chars().collect();
    let lines: Vec<String> = text.split('\n').map(|s| s.to_string()).collect();
    assert_eq!(blocks.len(), lines.len());
    for (l, line) in lines.iter().enumerate() {
        assert_eq!(&decode_line(&chars, blocks.get_line(l)), line, "line {}", l);
    }
    blocks
}

#[test]
fn empty_buffer_has_one_covered_line() {
    let ed = Editor::new();
    let blocks = ed.parse_text();
    assert_eq!(blocks.len(), 1);
    assert_eq!(decode_line(&[], blocks.get_line(0)), "");
}

#[test]
fn round_trip_on_seeded_program() {
    let ed = editor_with("fn main() {\n    println!(\"Hello, world!\");\n}\n");
    assert_round_trip(&ed);
}

#[test]
fn round_trip_after_edit() {
    let mut ed = editor_with("fn main() {\n    println!(\"Hi\");\n}\n");
    ed.move_cursor_right();
    ed.move_cursor_right();
    ed.insert_text("x");
    assert_round_trip(&ed);
}

#[test]
fn round_trip_with_wide_characters() {
    let ed = editor_with("let s = \"a中b\"; // 注release\n中中");
    assert_round_trip(&ed);
}

#[test]
fn keyword_is_recognised() {
    let ed = editor_with("fn main() {");
    let blocks = ed.parse_text();
    let nodes = blocks.get_line(0);
    assert_eq!(nodes[0].0, SyntaxType::Keyword);
    match nodes[0].1 {
        TextNode::Range { start, end } => {
            assert_eq!((start, end), (0, 2));
        }
        _ => panic!("expected a range span"),
    }
    assert_eq!(nodes[2].0, SyntaxType::Identifier);
}

#[test]
fn comment_runs_to_line_end() {
    let ed = editor_with("x // rest \"quoted\" ignored");
    let blocks = ed.parse_text();
    let nodes = blocks.get_line(0);
    let last = &nodes[nodes.len() - 1];
    assert_eq!(last.0, SyntaxType::Comment);
    match last.1 {
        TextNode::Range { start, end } => {
            assert_eq!(start, 2);
            assert_eq!(end, ed.get_text().chars().count());
        }
        _ => panic!("expected a range span"),
    }
}

#[test]
fn string_literal_spans_to_closing_quote() {
    let ed = editor_with("a\"bc\"d");
    let blocks = ed.parse_text();
    let nodes = blocks.get_line(0);
    assert_eq!(nodes[1].0, SyntaxType::StringLit);
    match nodes[1].1 {
        TextNode::Range { start, end } => {
            assert_eq!((start, end), (1, 5));
        }
        _ => panic!("expected a range span"),
    }
}

#[test]
fn unterminated_string_runs_to_line_end() {
    let ed = editor_with("a\"bc");
    assert_round_trip(&ed);
    let blocks = ed.parse_text();
    let nodes = blocks.get_line(0);
    assert_eq!(nodes[1].0, SyntaxType::StringLit);
    match nodes[1].1 {
        TextNode::Range { start, end } => {
            assert_eq!((start, end), (1, 4));
        }
        _ => panic!("expected a range span"),
    }
}

#[test]
fn whitespace_becomes_run_of_char() {
    let ed = editor_with("  x");
    let blocks = ed.parse_text();
    let nodes = blocks.get_line(0);
    assert_eq!(nodes[0].0, SyntaxType::Whitespace);
    match nodes[0].1 {
        TextNode::RunOfChar { len, ch } => {
            assert_eq!(len, 2);
            assert_eq!(ch, ' ');
        }
        _ => panic!("expected a repeated-character span"),
    }
}

#[test]
fn char_count_up_to_sums_span_lengths() {
    let ed = editor_with("    fn x");
    let blocks = ed.parse_text();
    assert_eq!(blocks.char_count_up_to(0, 0), 0);
    assert_eq!(blocks.char_count_up_to(0, 1), 4);
    assert_eq!(blocks.char_count_up_to(0, 2), 6);
    assert_eq!(blocks.char_count_up_to(0, 3), 7);
}

#[test]
fn parsing_twice_gives_identical_output() {
    let ed = editor_with("fn main() {\n    let x = \"y\"; // note\n}\n");
    let a = ed.parse_text();
    let b = ed.parse_text();
    assert_eq!(a.len(), b.len());
    for l in 0..a.len() {
        assert_eq!(a.get_line(l), b.get_line(l));
    }
}

#[test]
fn colors_follow_category() {
    assert_eq!(SyntaxType::Keyword.color(), "#0000cc");
    assert_eq!(SyntaxType::StringLit.color(), "#a31515");
    assert_eq!(SyntaxType::Comment.color(), "#008000");
    assert_eq!(SyntaxType::Plain.color(), "#020202");
}
