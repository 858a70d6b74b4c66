use vstd::prelude::*;
use crate::port::PortWrite;
use vstd::string::StringSliceAdditionalSpecFns;
use crate::text::push_char;

verus! {

/// Rows of the text console.
pub const BUFFER_HEIGHT: usize = 25;

/// Columns of the text console.
pub const BUFFER_WIDTH: usize = 80;

/// Number of cells of the text console.
pub const BUFFER_CELLS: usize = 2000;

/// Column right after the shell prompt `>>> `; editing keys never cross it.
pub const PROMPT_COLUMN: usize = 4;

/// Glyph written in place of a byte that is not printable ASCII.
pub const PLACEHOLDER: u8 = 0xfe;

/// Index register port of the VGA cursor.
pub const CURSOR_INDEX_PORT: u16 = 0x3D4;

/// Data register port of the VGA cursor.
pub const CURSOR_DATA_PORT: u16 = 0x3D5;

/// The sixteen-entry VGA palette.
#[derive(Debug, Clone, Copy, PartialEq, Eq, Structural)]
pub enum Color {
    Black,
    Blue,
    Green,
    Cyan,
    Red,
    Magenta,
    Brown,
    LightGray,
    DarkGray,
    LightBlue,
    LightGreen,
    LightCyan,
    LightRed,
    Pink,
    Yellow,
    White,
}

impl Color {
    /// Palette index of the color.
    pub open spec fn index(self) -> u8 {
        match self {
            Color::Black => 0,
            Color::Blue => 1,
            Color::Green => 2,
            Color::Cyan => 3,
            Color::Red => 4,
            Color::Magenta => 5,
            Color::Brown => 6,
            Color::LightGray => 7,
            Color::DarkGray => 8,
            Color::LightBlue => 9,
            Color::LightGreen => 10,
            Color::LightCyan => 11,
            Color::LightRed => 12,
            Color::Pink => 13,
            Color::Yellow => 14,
            Color::White => 15,
        }
    }

    pub fn as_u8(self) -> (r: u8)
        ensures
            r == self.index(),
            r < 16,
    {
        match self {
            Color::Black => 0,
            Color::Blue => 1,
            Color::Green => 2,
            Color::Cyan => 3,
            Color::Red => 4,
            Color::Magenta => 5,
            Color::Brown => 6,
            Color::LightGray => 7,
            Color::DarkGray => 8,
            Color::LightBlue => 9,
            Color::LightGreen => 10,
            Color::LightCyan => 11,
            Color::LightRed => 12,
            Color::Pink => 13,
            Color::Yellow => 14,
            Color::White => 15,
        }
    }
}

/// A VGA attribute byte: foreground in the low nibble, background in the high one.
#[derive(Debug, Clone, Copy, PartialEq, Eq, Structural)]
pub struct ColorCode(pub u8);

impl ColorCode {
    pub open spec fn spec_new(foreground: Color, background: Color) -> ColorCode {
        ColorCode((background.index() * 16 + foreground.index()) as u8)
    }

    pub fn new(foreground: Color, background: Color) -> (r: ColorCode)
        ensures
            r == ColorCode::spec_new(foreground, background),
            r.0 % 16 == foreground.index(),
            r.0 / 16 == background.index(),
    {
        let f = foreground.as_u8();
        let b = background.as_u8();
        let v: u8 = b << 4u8 | f;
        assert(v == b * 16 + f) by (bit_vector)
            requires
                f < 16,
                b < 16,
                v == b << 4u8 | f,
        ;
        ColorCode(v)
    }
}

/// One cell of the console: a character byte and its attribute byte.
#[derive(Debug, Clone, Copy, PartialEq, Eq, Structural)]
pub struct ScreenChar {
    pub ascii_character: u8,
    pub color_code: ColorCode,
}

/// A blank cell drawn with `color`.
pub open spec fn blank(color: ColorCode) -> ScreenChar {
    ScreenChar { ascii_character: 0x20u8, color_code: color }
}

/// Whether `b` is shown as it is: printable ASCII or a newline.
pub open spec fn is_printable(b: u8) -> bool {
    (0x20 <= b && b <= 0x7e) || b == 0x0a
}

/// The byte that the console shows for `b`.
pub open spec fn glyph(b: u8) -> u8 {
    if is_printable(b) { b } else { PLACEHOLDER }
}

/// Index of the cell at `row`, `col` in row-major order.
pub open spec fn cell_index(row: int, col: int) -> int {
    row * BUFFER_WIDTH + col
}

/// The cells after one scroll: each row takes the content of the row below
/// it and the bottom row is blank.
pub open spec fn scrolled(chars: Seq<ScreenChar>, color: ColorCode) -> Seq<ScreenChar> {
    Seq::new(
        BUFFER_CELLS as nat,
        |i: int|
            if i < cell_index(BUFFER_HEIGHT - 1, 0) {
                chars[i + BUFFER_WIDTH]
            } else {
                blank(color)
            },
    )
}

/// What the console holds, as plain values.
pub struct ConsoleView {
    pub chars: Seq<ScreenChar>,
    pub column: nat,
    pub color: ColorCode,
}

/// The console after one byte is written.
pub open spec fn after_byte(v: ConsoleView, byte: u8) -> ConsoleView {
    if byte == 0x0a {
        ConsoleView { chars: scrolled(v.chars, v.color), column: 0, color: v.color }
    } else {
        let cell = ScreenChar { ascii_character: glyph(byte), color_code: v.color };
        if v.column < BUFFER_WIDTH {
            ConsoleView {
                chars: v.chars.update(cell_index(BUFFER_HEIGHT - 1, v.column as int), cell),
                column: v.column + 1,
                color: v.color,
            }
        } else {
            ConsoleView {
                chars: scrolled(v.chars, v.color).update(cell_index(BUFFER_HEIGHT - 1, 0), cell),
                column: 1,
                color: v.color,
            }
        }
    }
}

/// The console after `bytes` are written in order.
pub open spec fn after_bytes(v: ConsoleView, bytes: Seq<u8>) -> ConsoleView
    decreases bytes.len(),
{
    if bytes.len() == 0 {
        v
    } else {
        after_byte(after_bytes(v, bytes.drop_last()), bytes.last())
    }
}

/// The characters of the bottom row of `v`, left to right.
pub open spec fn bottom_row_text(v: ConsoleView) -> Seq<char> {
    Seq::new(
        BUFFER_WIDTH as nat,
        |c: int| v.chars[cell_index(BUFFER_HEIGHT - 1, c)].ascii_character as char,
    )
}

/// The console after a backspace: the cell left of the cursor blanked and
/// the cursor one column left, except at the prompt column and at column 0.
pub open spec fn after_backspace(v: ConsoleView) -> ConsoleView {
    if v.column == PROMPT_COLUMN || v.column == 0 {
        v
    } else {
        ConsoleView {
            chars: v.chars.update(cell_index(BUFFER_HEIGHT - 1, v.column - 1), blank(v.color)),
            column: (v.column - 1) as nat,
            color: v.color,
        }
    }
}

/// The character grid of the console, row-major.
pub struct Buffer {
    pub chars: Vec<ScreenChar>,
}

impl Buffer {
    /// The cell at `row`, `col`.
    pub fn get(&self, row: usize, col: usize) -> (r: ScreenChar)
        requires
            self.chars@.len() == BUFFER_CELLS,
            row < BUFFER_HEIGHT,
            col < BUFFER_WIDTH,
        ensures
            r == self.chars@[cell_index(row as int, col as int)],
    {
        self.chars[row * BUFFER_WIDTH + col]
    }
}

/// The console writer: the grid, the column of the bottom row where the
/// next byte goes, and the attribute used for new cells.
pub struct Writer {
    pub column_position: usize,
    color_code: ColorCode,
    pub buffer: Buffer,
}

impl Writer {
    pub open spec fn wf(&self) -> bool {
        &&& self.view().chars.len() == BUFFER_CELLS
        &&& self.view().column <= BUFFER_WIDTH
    }

    pub closed spec fn view(&self) -> ConsoleView {
        ConsoleView {
            chars: self.buffer.chars@,
            column: self.column_position as nat,
            color: self.color_code,
        }
    }

    /// A console of blank cells drawn with `color`, writing at column 0.
    pub fn new(color_code: ColorCode) -> (r: Writer)
        ensures
            r.wf(),
            r.view().chars == Seq::new(BUFFER_CELLS as nat, |i: int| blank(color_code)),
            r.view().column == 0,
            r.view().color == color_code,
    {
        let mut chars: Vec<ScreenChar> = Vec::new();
        let cell = ScreenChar { ascii_character: 0x20u8, color_code };
        let mut i: usize = 0;
        while i < BUFFER_CELLS
            invariant
                i <= BUFFER_CELLS,
                cell == blank(color_code),
                chars@ == Seq::new(i as nat, |j: int| blank(color_code)),
            decreases BUFFER_CELLS - i,
        {
            chars.push(cell);
            i += 1;
            assert(chars@ =~= Seq::new(i as nat, |j: int| blank(color_code)));
        }
        Writer { column_position: 0, color_code, buffer: Buffer { chars } }
    }

    /// Moves every row up by one, blanks the bottom row and returns to column 0.
    fn new_line(&mut self)
        requires
            old(self).wf(),
        ensures
            final(self).wf(),
            final(self).view() == after_byte(old(self).view(), 0x0a),
    {
        let ghost before = self.buffer.chars@;
        let last: usize = (BUFFER_HEIGHT - 1) * BUFFER_WIDTH;
        let mut i: usize = 0;
        while i < last
            invariant
                last == cell_index(BUFFER_HEIGHT - 1, 0),
                i <= last,
                self.buffer.chars@.len() == BUFFER_CELLS,
                self.column_position <= BUFFER_WIDTH,
                self.color_code == old(self).color_code,
                before == old(self).buffer.chars@,
                forall|j: int| 0 <= j < i ==> self.buffer.chars@[j] == before[j + BUFFER_WIDTH],
                forall|j: int| i <= j < BUFFER_CELLS ==> self.buffer.chars@[j] == before[j],
            decreases last - i,
        {
            let c = self.buffer.chars[i + BUFFER_WIDTH];
            self.buffer.chars.set(i, c);
            i += 1;
        }
        self.clear_row(BUFFER_HEIGHT - 1);
        self.column_position = 0;
        assert(self.buffer.chars@ =~= scrolled(before, self.color_code));
    }

    /// Fills `row` with blank cells in the current color.
    fn clear_row(&mut self, row: usize)
        requires
            old(self).wf(),
            row < BUFFER_HEIGHT,
        ensures
            final(self).wf(),
            final(self).column_position == old(self).column_position,
            final(self).color_code == old(self).color_code,
            final(self).buffer.chars@.len() == BUFFER_CELLS,
            forall|j: int|
                0 <= j < BUFFER_CELLS ==> final(self).buffer.chars@[j] == if cell_index(
                    row as int,
                    0,
                ) <= j < cell_index(row as int, BUFFER_WIDTH as int) {
                    blank(old(self).color_code)
                } else {
                    old(self).buffer.chars@[j]
                },
    {
        let blank_cell = ScreenChar { ascii_character: 0x20u8, color_code: self.color_code };
        let start: usize = row * BUFFER_WIDTH;
        let mut col: usize = 0;
        while col < BUFFER_WIDTH
            invariant
                start == cell_index(row as int, 0),
                row < BUFFER_HEIGHT,
                col <= BUFFER_WIDTH,
                blank_cell == blank(old(self).color_code),
                self.buffer.chars@.len() == BUFFER_CELLS,
                self.column_position == old(self).column_position,
                self.color_code == old(self).color_code,
                forall|j: int|
                    0 <= j < BUFFER_CELLS ==> self.buffer.chars@[j] == if start <= j < start
                        + col {
                        blank(old(self).color_code)
                    } else {
                        old(self).buffer.chars@[j]
                    },
            decreases BUFFER_WIDTH - col,
        {
            self.buffer.chars.set(start + col, blank_cell);
            col += 1;
        }
    }

    /// Writes one byte at the cursor column of the bottom row. A newline
    /// scrolls; a byte that is not printable ASCII is drawn as a placeholder
    /// glyph; a full row scrolls before the byte is drawn.
    pub fn write_byte(&mut self, byte: u8)
        requires
            old(self).wf(),
        ensures
            final(self).wf(),
            final(self).view() == after_byte(old(self).view(), byte),
    {
        if byte == 0x0a {
            self.new_line();
        } else {
            let shown: u8 = if (0x20 <= byte && byte <= 0x7e) { byte } else { PLACEHOLDER };
            if self.column_position >= BUFFER_WIDTH {
                self.new_line();
            }
            let row = BUFFER_HEIGHT - 1;
            let col = self.column_position;
            let cell = ScreenChar { ascii_character: shown, color_code: self.color_code };
            self.buffer.chars.set(row * BUFFER_WIDTH + col, cell);
            self.column_position = col + 1;
        }
    }

    /// Writes the bytes of `s` in order.
    pub fn write_string(&mut self, s: &str)
        requires
            old(self).wf(),
        ensures
            final(self).wf(),
            final(self).view() == after_bytes(old(self).view(), s.spec_bytes()),
    {
        let bytes = s.as_bytes();
        let mut i: usize = 0;
        while i < bytes.len()
            invariant
                bytes@ == s.spec_bytes(),
                i <= bytes@.len(),
                self.wf(),
                self.view() == after_bytes(old(self).view(), bytes@.subrange(0, i as int)),
            decreases bytes@.len() - i,
        {
            self.write_byte(bytes[i]);
            assert(bytes@.subrange(0, i + 1).drop_last() =~= bytes@.subrange(0, i as int));
            i += 1;
        }
        assert(bytes@.subrange(0, i as int) =~= bytes@);
    }

    /// Draws every cell blank in `color`; the column and the attribute of
    /// later cells stay.
    pub fn fill(&mut self, color: ColorCode)
        requires
            old(self).wf(),
        ensures
            final(self).wf(),
            final(self).view() == (ConsoleView {
                chars: Seq::new(BUFFER_CELLS as nat, |i: int| blank(color)),
                ..old(self).view()
            }),
    {
        let cell = ScreenChar { ascii_character: 0x20u8, color_code: color };
        let mut i: usize = 0;
        while i < BUFFER_CELLS
            invariant
                i <= BUFFER_CELLS,
                cell == blank(color),
                self.buffer.chars@.len() == BUFFER_CELLS,
                self.column_position == old(self).column_position,
                self.color_code == old(self).color_code,
                forall|j: int|
                    0 <= j < BUFFER_CELLS ==> self.buffer.chars@[j] == if j < i {
                        blank(color)
                    } else {
                        old(self).buffer.chars@[j]
                    },
            decreases BUFFER_CELLS - i,
        {
            self.buffer.chars.set(i, cell);
            i += 1;
        }
        assert(self.buffer.chars@ =~= Seq::new(BUFFER_CELLS as nat, |i: int| blank(color)));
    }

    /// Column of the bottom row where the next byte goes.
    pub fn column(&self) -> (r: usize)
        requires
            self.wf(),
        ensures
            r == self.view().column,
            r <= BUFFER_WIDTH,
    {
        self.column_position
    }

    /// Puts the next byte at column `col` of the bottom row.
    pub fn set_column(&mut self, col: usize)
        requires
            old(self).wf(),
            col <= BUFFER_WIDTH,
        ensures
            final(self).wf(),
            final(self).view() == (ConsoleView { column: col as nat, ..old(self).view() }),
    {
        self.column_position = col;
    }

    /// The characters of the bottom row, left to right.
    pub fn bottom_row(&self) -> (r: String)
        requires
            self.wf(),
        ensures
            r@ == bottom_row_text(self.view()),
    {
        let mut s = String::new();
        let start: usize = (BUFFER_HEIGHT - 1) * BUFFER_WIDTH;
        let mut col: usize = 0;
        while col < BUFFER_WIDTH
            invariant
                self.wf(),
                start == cell_index(BUFFER_HEIGHT - 1, 0),
                col <= BUFFER_WIDTH,
                s@ == Seq::new(
                    col as nat,
                    |c: int| self.view().chars[cell_index(BUFFER_HEIGHT - 1, c)].ascii_character as char,
                ),
            decreases BUFFER_WIDTH - col,
        {
            let cell = self.buffer.chars[start + col];
            push_char(&mut s, cell.ascii_character as char);
            col += 1;
            assert(s@ =~= Seq::new(
                col as nat,
                |c: int| self.view().chars[cell_index(BUFFER_HEIGHT - 1, c)].ascii_character as char,
            ));
        }
        s
    }

    /// The attribute applied to the cells written next.
    pub fn color_code(&self) -> (r: ColorCode)
        ensures
            r == self.view().color,
    {
        self.color_code
    }
}

/// Erases the cell left of the cursor and moves the cursor one column left.
/// Nothing happens at the prompt column, nor at column 0 where no cell lies
/// to the left.
pub fn backspace(writer: &mut Writer)
    requires
        old(writer).wf(),
    ensures
        final(writer).wf(),
        final(writer).view() == after_backspace(old(writer).view()),
        final(writer).view().color == old(writer).view().color,
        old(writer).view().column == PROMPT_COLUMN || old(writer).view().column == 0
            ==> final(writer).view() == old(writer).view(),
        old(writer).view().column != PROMPT_COLUMN && old(writer).view().column != 0 ==> {
            &&& final(writer).view().column == old(writer).view().column - 1
            &&& final(writer).view().chars == old(writer).view().chars.update(
                cell_index(BUFFER_HEIGHT - 1, old(writer).view().column - 1),
                blank(old(writer).view().color),
            )
        },
{
    let row = BUFFER_HEIGHT - 1;
    let col = writer.column_position;
    if col != PROMPT_COLUMN && col != 0 {
        let cell = ScreenChar { ascii_character: 0x20u8, color_code: writer.color_code };
        writer.buffer.chars.set(row * BUFFER_WIDTH + col - 1, cell);
        writer.column_position = col - 1;
    }
}

/// Sets the attribute of the cells written from now on; cells already drawn
/// keep theirs.
pub fn change_color(writer: &mut Writer, foreground: Color, background: Color)
    requires
        old(writer).wf(),
    ensures
        final(writer).wf(),
        final(writer).view() == (ConsoleView {
            color: ColorCode::spec_new(foreground, background),
            ..old(writer).view()
        }),
{
    let color = ColorCode::new(foreground, background);
    writer.color_code = color;
}

/// The hardware cursor: an index port and a data port.
pub struct Cursor {
    port_low: u16,
    port_high: u16,
}

/// Cursor register holding the low byte of the cursor offset.
pub const CURSOR_LOW_REGISTER: u8 = 0x0F;

/// Cursor register holding the high byte of the cursor offset.
pub const CURSOR_HIGH_REGISTER: u8 = 0x0E;

/// The port writes that put the hardware cursor at linear offset `pos`:
/// the index of the low register, the low byte, the index of the high
/// register, the high byte.
pub open spec fn cursor_writes(pos: int) -> Seq<PortWrite> {
    seq![
        PortWrite { port: CURSOR_INDEX_PORT, value: CURSOR_LOW_REGISTER },
        PortWrite { port: CURSOR_DATA_PORT, value: (pos % 256) as u8 },
        PortWrite { port: CURSOR_INDEX_PORT, value: CURSOR_HIGH_REGISTER },
        PortWrite { port: CURSOR_DATA_PORT, value: (pos / 256 % 256) as u8 },
    ]
}

impl Cursor {
    pub fn new() -> (r: Cursor)
        ensures
            r.index_port() == CURSOR_INDEX_PORT,
            r.data_port() == CURSOR_DATA_PORT,
    {
        Cursor { port_low: CURSOR_INDEX_PORT, port_high: CURSOR_DATA_PORT }
    }

    pub closed spec fn index_port(&self) -> u16 {
        self.port_low
    }

    pub closed spec fn data_port(&self) -> u16 {
        self.port_high
    }

    /// The writes that move the cursor to linear offset `pos`.
    pub fn move_cursor(&self, pos: u16) -> (r: Vec<PortWrite>)
        requires
            self.index_port() == CURSOR_INDEX_PORT,
            self.data_port() == CURSOR_DATA_PORT,
        ensures
            r@ == cursor_writes(pos as int),
    {
        let low: u8 = (pos & 0xFF) as u8;
        let high: u8 = ((pos >> 8u16) & 0xFF) as u8;
        assert(low == pos % 256 && high == pos / 256 % 256) by (bit_vector)
            requires
                low == (pos & 0xFF) as u8,
                high == ((pos >> 8u16) & 0xFF) as u8,
        ;
        let mut r: Vec<PortWrite> = Vec::new();
        r.push(PortWrite { port: self.port_low, value: CURSOR_LOW_REGISTER });
        r.push(PortWrite { port: self.port_high, value: low });
        r.push(PortWrite { port: self.port_low, value: CURSOR_HIGH_REGISTER });
        r.push(PortWrite { port: self.port_high, value: high });
        assert(r@ =~= cursor_writes(pos as int));
        r
    }
}

/// The writes that put the hardware cursor at column `x` of row `y`, that is
/// at linear offset `y * 80 + x`.
pub fn move_cursor(x: u16, y: u16) -> (r: Vec<PortWrite>)
    requires
        y * BUFFER_WIDTH + x <= u16::MAX,
    ensures
        r@ == cursor_writes(y * BUFFER_WIDTH + x),
{
    let pos: u16 = y * (BUFFER_WIDTH as u16) + x;
    let cursor = Cursor::new();
    cursor.move_cursor(pos)
}

/// `k` newline bytes.
pub open spec fn newlines(k: nat) -> Seq<u8> {
    Seq::new(k, |i: int| 0x0au8)
}

/// Writing `k` newlines moves every row up by `k`: the cell at `row`, `col`
/// then holds what was `k` rows below it, and the bottom `k` rows are blank.
/// Lines leave through the top row, the oldest first.
pub proof fn lemma_newlines_scroll(v: ConsoleView, k: nat, row: int, col: int)
    requires
        v.chars.len() == BUFFER_CELLS,
        0 <= row < BUFFER_HEIGHT,
        0 <= col < BUFFER_WIDTH,
    ensures
        after_bytes(v, newlines(k)).chars.len() == BUFFER_CELLS,
        after_bytes(v, newlines(k)).column == if k == 0 { v.column } else { 0 },
        after_bytes(v, newlines(k)).color == v.color,
        after_bytes(v, newlines(k)).chars[cell_index(row, col)] == if row + k < BUFFER_HEIGHT {
            v.chars[cell_index(row + k, col)]
        } else {
            blank(v.color)
        },
    decreases k,
{
    if k > 0 {
        let k1 = (k - 1) as nat;
        assert(newlines(k).drop_last() =~= newlines(k1));
        let prev = after_bytes(v, newlines(k1));
        lemma_newlines_scroll(v, k1, row, col);
        if row < BUFFER_HEIGHT - 1 {
            lemma_newlines_scroll(v, k1, row + 1, col);
            assert(cell_index(row, col) + BUFFER_WIDTH == cell_index(row + 1, col));
        }
    }
}

/// Whether `line` fits in one row and holds printable ASCII only.
pub open spec fn is_text_line(line: Seq<u8>) -> bool {
    &&& line.len() <= BUFFER_WIDTH
    &&& forall|i: int| 0 <= i < line.len() ==> 0x20 <= #[trigger] line[i] <= 0x7e
}

/// `lines` joined by newlines, with no newline after the last.
pub open spec fn joined(lines: Seq<Seq<u8>>) -> Seq<u8>
    decreases lines.len(),
{
    if lines.len() == 0 {
        Seq::empty()
    } else if lines.len() == 1 {
        lines[0]
    } else {
        joined(lines.drop_last()) + seq![0x0au8] + lines.last()
    }
}

/// The cell at column `c` of a row that shows `line` on blanks.
pub open spec fn line_cell(line: Seq<u8>, c: int, color: ColorCode) -> ScreenChar {
    if c < line.len() {
        ScreenChar { ascii_character: line[c], color_code: color }
    } else {
        blank(color)
    }
}

proof fn lemma_after_bytes_concat(v: ConsoleView, a: Seq<u8>, b: Seq<u8>)
    ensures
        after_bytes(v, a + b) == after_bytes(after_bytes(v, a), b),
    decreases b.len(),
{
    if b.len() == 0 {
        assert(a + b =~= a);
    } else {
        assert((a + b).drop_last() =~= a + b.drop_last());
        assert((a + b).last() == b.last());
        lemma_after_bytes_concat(v, a, b.drop_last());
    }
}

/// The cells of `u` with `line` drawn at the start of the bottom row.
pub open spec fn line_drawn(u: ConsoleView, line: Seq<u8>) -> Seq<ScreenChar> {
    Seq::new(
        BUFFER_CELLS as nat,
        |i: int|
            if cell_index(BUFFER_HEIGHT - 1, 0) <= i < cell_index(
                BUFFER_HEIGHT - 1,
                line.len() as int,
            ) {
                ScreenChar {
                    ascii_character: line[i - cell_index(BUFFER_HEIGHT - 1, 0)],
                    color_code: u.color,
                }
            } else {
                u.chars[i]
            },
    )
}

/// Writing a text line from column 0 draws it at the start of the bottom
/// row and leaves the cursor right after it.
proof fn lemma_write_line(u: ConsoleView, line: Seq<u8>)
    requires
        u.chars.len() == BUFFER_CELLS,
        u.column == 0,
        is_text_line(line),
    ensures
        after_bytes(u, line).chars == line_drawn(u, line),
        after_bytes(u, line).column == line.len(),
        after_bytes(u, line).color == u.color,
    decreases line.len(),
{
    if line.len() == 0 {
        assert(after_bytes(u, line) == u);
        assert(line_drawn(u, line) =~= u.chars);
    } else {
        let prev = line.drop_last();
        assert forall|i: int| 0 <= i < prev.len() implies 0x20 <= #[trigger] prev[i] <= 0x7e by {
            assert(prev[i] == line[i]);
        }
        lemma_write_line(u, prev);
        assert(0x20 <= line[line.len() - 1] <= 0x7e);
        let w = after_bytes(u, line);
        assert(w.chars =~= line_drawn(u, line));
    }
}

/// Writing text lines joined by newlines, from column 0, leaves the latest
/// lines on screen, oldest at the top: row `r` shows line `n - 25 + r` on
/// blanks, for each such line that began on a fresh row (every line but
/// the first). Older lines have scrolled off the top, the oldest first.
pub proof fn lemma_lines_scroll(v: ConsoleView, lines: Seq<Seq<u8>>)
    requires
        v.chars.len() == BUFFER_CELLS,
        v.column == 0,
        lines.len() >= 1,
        forall|k: int| 0 <= k < lines.len() ==> is_text_line(#[trigger] lines[k]),
    ensures
        after_bytes(v, joined(lines)).chars.len() == BUFFER_CELLS,
        after_bytes(v, joined(lines)).column == lines.last().len(),
        after_bytes(v, joined(lines)).color == v.color,
        forall|r: int, c: int|
            0 <= r < BUFFER_HEIGHT && 0 <= c < BUFFER_WIDTH && lines.len() - BUFFER_HEIGHT + r
                >= 1 ==> #[trigger] after_bytes(v, joined(lines)).chars[cell_index(r, c)]
                == line_cell(lines[lines.len() - BUFFER_HEIGHT + r], c, v.color),
    decreases lines.len(),
{
    let n = lines.len();
    let w = after_bytes(v, joined(lines));
    if n == 1 {
        assert(is_text_line(lines[0]));
        lemma_write_line(v, lines[0]);
    } else {
        let prev = lines.drop_last();
        let line = lines.last();
        assert(is_text_line(lines[n - 1]));
        assert forall|k: int| 0 <= k < prev.len() implies is_text_line(#[trigger] prev[k]) by {
            assert(prev[k] == lines[k]);
        }
        lemma_lines_scroll(v, prev);
        let w0 = after_bytes(v, joined(prev));
        assert(joined(lines) == joined(prev) + seq![0x0au8] + line);
        lemma_after_bytes_concat(v, joined(prev) + seq![0x0au8], line);
        lemma_after_bytes_concat(v, joined(prev), seq![0x0au8]);
        assert(seq![0x0au8].drop_last() =~= Seq::<u8>::empty());
        let u = after_bytes(w0, seq![0x0au8]);
        assert(after_bytes(w0, Seq::<u8>::empty()) == w0);
        assert(seq![0x0au8].last() == 0x0au8);
        assert(u == after_byte(w0, 0x0a));
        lemma_write_line(u, line);
        assert forall|r: int, c: int|
            0 <= r < BUFFER_HEIGHT && 0 <= c < BUFFER_WIDTH && n - BUFFER_HEIGHT + r
                >= 1 implies #[trigger] w.chars[cell_index(r, c)] == line_cell(
            lines[n - BUFFER_HEIGHT + r],
            c,
            v.color,
        ) by {
            if r < BUFFER_HEIGHT - 1 {
                assert(cell_index(r, c) + BUFFER_WIDTH == cell_index(r + 1, c));
                assert(w0.chars[cell_index(r + 1, c)] == line_cell(
                    prev[prev.len() - BUFFER_HEIGHT + r + 1],
                    c,
                    v.color,
                ));
                assert(prev[prev.len() - BUFFER_HEIGHT + r + 1] == lines[n - BUFFER_HEIGHT + r]);
            }
        }
    }
}

} // verus!
