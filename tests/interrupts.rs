use karxos::clock::{ticks, Clock};
use karxos::interrupts::{
    handle_key, handler_table, keyboard_interrupt_handler, timer_interrupt_handler, Handler,
    InterruptIndex, Key, KeyDecoder,
};
use karxos::vga_buffer::{Color, ColorCode, Writer};

fn writer_at_prompt() -> Writer {
    let mut w = Writer::new(ColorCode::new(Color::White, Color::Black));
    w.write_string(">>> ");
    w
}

#[test]
fn interrupt_vectors() {
    assert_eq!(InterruptIndex::Timer.as_u8(), 32);
    assert_eq!(InterruptIndex::Keyboard.as_u8(), 33);
    assert_eq!(InterruptIndex::Keyboard.as_usize(), 33);
}

#[test]
fn vector_table_entries() {
    let t = handler_table();
    assert_eq!(t.len(), 4);
    assert_eq!((t[0].vector, t[0].handler, t[0].stack), (3, Handler::Breakpoint, None));
    assert_eq!((t[1].vector, t[1].handler, t[1].stack), (8, Handler::DoubleFault, Some(0)));
    assert_eq!((t[2].vector, t[2].handler), (32, Handler::Timer));
    assert_eq!((t[3].vector, t[3].handler), (33, Handler::Keyboard));
}

#[test]
fn timer_interrupt_counts_and_acknowledges() {
    let mut c = Clock::new();
    assert_eq!(timer_interrupt_handler(&mut c), 32);
    assert_eq!(timer_interrupt_handler(&mut c), 32);
    assert_eq!(ticks(&c), 2);
}

#[test]
fn keyboard_interrupt_acknowledges_once_per_scancode() {
    let mut decoder = KeyDecoder::new();
    let mut w = writer_at_prompt();
    // 'a' pressed, 'a' released, a lone extended prefix, garbage.
    for code in [0x1Eu8, 0x9E, 0xE0, 0xFF] {
        let out = keyboard_interrupt_handler(&mut decoder, &mut w, code);
        assert_eq!(out.eoi, 33);
    }
    assert_eq!(w.buffer.get(24, 4).ascii_character, b'a');
    assert_eq!(w.column(), 5);
}

#[test]
fn decoder_gives_characters() {
    let mut decoder = KeyDecoder::new();
    assert_eq!(decoder.decode(0x1E), Some(Key::Unicode('a')));
    assert_eq!(decoder.decode(0x9E), None);
    assert_eq!(decoder.decode(0x1C), Some(Key::Unicode('\n')));
    assert_eq!(decoder.decode(0xE0), None);
    assert_eq!(decoder.decode(0x4B), Some(Key::ArrowLeft));
}

#[test]
fn enter_hands_over_the_bottom_row() {
    let mut w = writer_at_prompt();
    w.write_string("help");
    let r = handle_key(&mut w, Some(Key::Unicode('\n')));
    let line = r.line.unwrap();
    assert_eq!(line.len(), 80);
    assert!(line.starts_with(">>> help "));
    assert!(r.move_cursor);
}

#[test]
fn tab_inserts_four_spaces() {
    let mut w = writer_at_prompt();
    let r = handle_key(&mut w, Some(Key::Unicode('\t')));
    assert_eq!(w.column(), 8);
    assert!(r.line.is_none());
    assert!(r.move_cursor);
}

#[test]
fn backspace_key_stops_at_prompt() {
    let mut w = writer_at_prompt();
    handle_key(&mut w, Some(Key::Unicode('x')));
    handle_key(&mut w, Some(Key::Unicode('\u{8}')));
    assert_eq!(w.column(), 4);
    handle_key(&mut w, Some(Key::Unicode('\u{8}')));
    assert_eq!(w.column(), 4);
    assert_eq!(w.buffer.get(24, 3).ascii_character, b' ');
    assert_eq!(w.buffer.get(24, 2).ascii_character, b'>');
}

#[test]
fn arrows_move_the_column() {
    let mut w = writer_at_prompt();
    let r = handle_key(&mut w, Some(Key::ArrowLeft));
    assert!(!r.move_cursor);
    assert_eq!(w.column(), 4);
    let r = handle_key(&mut w, Some(Key::ArrowRight));
    assert!(r.move_cursor);
    assert_eq!(w.column(), 5);
    let r = handle_key(&mut w, Some(Key::ArrowLeft));
    assert!(r.move_cursor);
    assert_eq!(w.column(), 4);
    let r = handle_key(&mut w, Some(Key::OtherRaw));
    assert!(!r.move_cursor);
    let r = handle_key(&mut w, None);
    assert!(!r.move_cursor && r.line.is_none());
}
