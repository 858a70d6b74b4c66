use karxos::shell::{clear, compute_edit_distance, echo_text, evaluate, suggest, CommandKind};
use karxos::vga_buffer::{Color, ColorCode, Writer};

#[test]
fn edit_distance_values() {
    assert_eq!(compute_edit_distance("kitten", "sitting"), 3);
    assert_eq!(compute_edit_distance("", "abc"), 3);
    assert_eq!(compute_edit_distance("abc", ""), 3);
    assert_eq!(compute_edit_distance("helo", "help"), 1);
    assert_eq!(compute_edit_distance("same", "same"), 0);
    assert_eq!(compute_edit_distance("a", "shutdown"), 8);
}

#[test]
fn suggestions_pick_the_nearest_command() {
    assert_eq!(suggest("hlep"), 0);
    assert_eq!(suggest("ech"), 2);
    assert_eq!(suggest("shutdwn"), 3);
    assert_eq!(suggest("cleat"), 4);
    // Ties go to the earliest command.
    assert_eq!(suggest("xyz"), 0);
}

#[test]
fn evaluate_needs_prompt_and_command() {
    assert!(evaluate("help").is_none());
    assert!(evaluate(">>>    ").is_none());
    assert!(evaluate(">>> ").is_none());
    let c = evaluate(">>> help   ").unwrap();
    assert_eq!(c.kind, CommandKind::Help);
    assert_eq!(c.words, vec![String::from("help")]);
}

#[test]
fn evaluate_splits_on_single_spaces() {
    let c = evaluate(">>>   echo a  b").unwrap();
    assert_eq!(c.kind, CommandKind::Echo);
    assert_eq!(c.words, vec!["echo", "a", "", "b"]);
    assert_eq!(echo_text(&c.words), "a  b ");
    let c = evaluate(">>> frobnicate now").unwrap();
    assert_eq!(c.kind, CommandKind::Unknown);
    assert_eq!(evaluate(">>> shutdown").unwrap().kind, CommandKind::Shutdown);
    assert_eq!(evaluate(">>> clear").unwrap().kind, CommandKind::Clear);
    assert_eq!(evaluate(">>> info").unwrap().kind, CommandKind::Info);
}

#[test]
fn clear_blanks_the_screen() {
    let mut w = Writer::new(ColorCode::new(Color::Green, Color::Blue));
    w.write_string("text\nmore");
    clear(&mut w);
    for r in 0..25 {
        for c in 0..80 {
            let cell = w.buffer.get(r, c);
            assert_eq!(cell.ascii_character, b' ');
            assert_eq!(cell.color_code, ColorCode::new(Color::White, Color::Black));
        }
    }
    assert_eq!(w.column(), 4);
}
