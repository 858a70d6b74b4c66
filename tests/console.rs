use karxos::vga_buffer::{
    backspace, change_color, move_cursor, Color, ColorCode, Cursor, ScreenChar, Writer,
    BUFFER_HEIGHT, BUFFER_WIDTH,
};
use karxos::port::PortWrite;

fn white() -> ColorCode {
    ColorCode::new(Color::White, Color::Black)
}

fn row_text(w: &Writer, row: usize) -> String {
    (0..BUFFER_WIDTH).map(|c| w.buffer.get(row, c).ascii_character as char).collect()
}

#[test]
fn color_code_packs_background_high() {
    assert_eq!(ColorCode::new(Color::White, Color::Black).0, 0x0f);
    assert_eq!(ColorCode::new(Color::Green, Color::Blue).0, 0x12);
    assert_eq!(ColorCode::new(Color::Black, Color::White).0, 0xf0);
}

#[test]
fn write_byte_draws_on_bottom_row() {
    let mut w = Writer::new(white());
    w.write_byte(b'A');
    assert_eq!(w.column(), 1);
    assert_eq!(
        w.buffer.get(BUFFER_HEIGHT - 1, 0),
        ScreenChar { ascii_character: b'A', color_code: white() }
    );
}

#[test]
fn unprintable_byte_becomes_placeholder() {
    let mut w = Writer::new(white());
    w.write_string("a\u{7}b");
    assert_eq!(w.column(), 3);
    assert_eq!(w.buffer.get(24, 1).ascii_character, 0xfe);
    w.write_string("é");
    assert_eq!(w.column(), 5);
    assert_eq!(w.buffer.get(24, 3).ascii_character, 0xfe);
    assert_eq!(w.buffer.get(24, 4).ascii_character, 0xfe);
}

#[test]
fn full_row_wraps_by_scrolling() {
    let mut w = Writer::new(white());
    let line: String = std::iter::repeat('x').take(80).collect();
    w.write_string(&line);
    assert_eq!(w.column(), 80);
    w.write_byte(b'y');
    assert_eq!(w.column(), 1);
    assert_eq!(row_text(&w, 23), line);
    assert_eq!(w.buffer.get(24, 0).ascii_character, b'y');
    assert_eq!(w.buffer.get(24, 1).ascii_character, b' ');
}

#[test]
fn newline_shifts_rows_up() {
    let mut w = Writer::new(white());
    w.write_string("first\nsecond");
    assert!(row_text(&w, 23).starts_with("first "));
    assert!(row_text(&w, 24).starts_with("second "));
    assert_eq!(w.column(), 6);
}

#[test]
fn more_lines_than_height_keep_the_latest() {
    let mut w = Writer::new(white());
    for i in 0..30 {
        w.write_string(&format!("line {}\n", i));
    }
    // The last newline left the bottom row blank; rows 0..24 hold lines 6..29.
    for row in 0..BUFFER_HEIGHT - 1 {
        let expected = format!("line {}", row + 6);
        assert!(row_text(&w, row).starts_with(&expected), "row {}", row);
        assert_eq!(row_text(&w, row).trim_end(), expected);
    }
    assert_eq!(row_text(&w, 24).trim(), "");
}

#[test]
fn backspace_at_prompt_is_noop() {
    let mut w = Writer::new(white());
    w.write_string(">>> ");
    assert_eq!(w.column(), 4);
    backspace(&mut w);
    assert_eq!(w.column(), 4);
    assert!(row_text(&w, 24).starts_with(">>> "));
}

#[test]
fn backspace_blanks_one_cell() {
    let mut w = Writer::new(white());
    w.write_string(">>> ab");
    backspace(&mut w);
    assert_eq!(w.column(), 5);
    assert!(row_text(&w, 24).starts_with(">>> a "));
    assert_eq!(w.buffer.get(24, 5).ascii_character, b' ');
    assert_eq!(w.buffer.get(24, 4).ascii_character, b'a');
}

#[test]
fn backspace_at_column_zero_is_noop() {
    let mut w = Writer::new(white());
    backspace(&mut w);
    assert_eq!(w.column(), 0);
}

#[test]
fn change_color_applies_to_later_cells_only() {
    let mut w = Writer::new(white());
    w.write_byte(b'a');
    change_color(&mut w, Color::Green, Color::Black);
    w.write_byte(b'b');
    assert_eq!(w.buffer.get(24, 0).color_code, white());
    assert_eq!(w.buffer.get(24, 1).color_code, ColorCode::new(Color::Green, Color::Black));
    assert_eq!(w.color_code(), ColorCode::new(Color::Green, Color::Black));
}

#[test]
fn move_cursor_sends_low_then_high() {
    let writes = move_cursor(5, 24);
    assert_eq!(
        writes,
        vec![
            PortWrite::new(0x3D4, 0x0F),
            PortWrite::new(0x3D5, 0x85),
            PortWrite::new(0x3D4, 0x0E),
            PortWrite::new(0x3D5, 0x07),
        ]
    );
}

#[test]
fn cursor_at_origin() {
    let writes = Cursor::new().move_cursor(0);
    assert_eq!(writes[1], PortWrite::new(0x3D5, 0));
    assert_eq!(writes[3], PortWrite::new(0x3D5, 0));
}

#[test]
fn joined_lines_show_the_latest_twenty_five() {
    let mut w = Writer::new(white());
    let lines: Vec<String> = (0..40).map(|i| format!("entry {}", i)).collect();
    w.write_string(&lines.join("\n"));
    for row in 0..BUFFER_HEIGHT {
        assert_eq!(row_text(&w, row).trim_end(), lines[15 + row]);
    }
    assert_eq!(w.column(), lines[39].len());
}
