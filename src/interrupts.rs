use vstd::prelude::*;
use crate::clock::{pit_interrupt_handler, Clock};
use crate::vga_buffer::{
    after_backspace, after_bytes, backspace, bottom_row_text, ConsoleView, Writer, BUFFER_WIDTH,
    PLACEHOLDER, PROMPT_COLUMN,
};
use pc_keyboard::layouts::Us104Key;
use pc_keyboard::{
    DecodedKey, HandleControl, KeyCode, KeyEvent, Keyboard, ScancodeSet1,
};

verus! {

#[verifier::external_type_specification]
#[verifier::external_body]
pub struct ExKeyEvent(KeyEvent);

#[verifier::external_type_specification]
#[verifier::external_body]
pub struct ExKeyboardError(pc_keyboard::Error);

/// A key as the console logic sees it.
#[derive(Debug, Clone, Copy, PartialEq, Eq, Structural)]
pub enum Key {
    /// A key that stands for a character.
    Unicode(char),
    ArrowLeft,
    ArrowRight,
    /// Any other key without a character.
    OtherRaw,
}

/// The keystroke decoder: pc_keyboard's `Keyboard` for the US 104-key
/// layout and scancode set 1. Its state persists across scancodes, since
/// some keys span several bytes; only pc_keyboard reads or changes it.
#[verifier::external_body]
pub struct KeyDecoder {
    keyboard: Keyboard<Us104Key, ScancodeSet1>,
}

/// Relies on pc_keyboard's `Keyboard::new`: a decoder for the US 104-key
/// layout and scancode set 1 that ignores Ctrl, with nothing buffered.
#[verifier::external_body]
fn new_keyboard() -> KeyDecoder {
    KeyDecoder { keyboard: Keyboard::new(Us104Key, ScancodeSet1, HandleControl::Ignore) }
}

/// Relies on pc_keyboard's `Keyboard::add_byte`: feeds one scancode byte to
/// the decoder, which may complete a key event. What comes back depends on
/// the bytes fed before.
#[verifier::external_body]
fn add_byte(decoder: &mut KeyDecoder, byte: u8) -> Result<Option<KeyEvent>, pc_keyboard::Error> {
    decoder.keyboard.add_byte(byte)
}

/// Relies on pc_keyboard's `Keyboard::process_keyevent`: updates the
/// modifier state and gives the key that the event stands for, if any.
#[verifier::external_body]
fn process_keyevent(decoder: &mut KeyDecoder, event: KeyEvent) -> Option<Key> {
    match decoder.keyboard.process_keyevent(event) {
        Some(DecodedKey::Unicode(c)) => Some(Key::Unicode(c)),
        Some(DecodedKey::RawKey(KeyCode::ArrowLeft)) => Some(Key::ArrowLeft),
        Some(DecodedKey::RawKey(KeyCode::ArrowRight)) => Some(Key::ArrowRight),
        Some(DecodedKey::RawKey(_)) => Some(Key::OtherRaw),
        None => None,
    }
}

impl KeyDecoder {
    pub fn new() -> KeyDecoder {
        new_keyboard()
    }

    /// Feeds one scancode byte; gives the key it completes, if any. Partial
    /// and malformed sequences give `None`.
    pub fn decode(&mut self, scancode: u8) -> Option<Key> {
        match add_byte(self, scancode) {
            Ok(Some(event)) => process_keyevent(self, event),
            _ => None,
        }
    }
}

/// First vector of the master interrupt controller.
pub const PIC_1_OFFSET: u8 = 32;

/// First vector of the slave interrupt controller.
pub const PIC_2_OFFSET: u8 = 40;

/// Vector of the breakpoint exception.
pub const BREAKPOINT_VECTOR: u8 = 3;

/// Vector of the double-fault exception.
pub const DOUBLE_FAULT_VECTOR: u8 = 8;

/// Index of the dedicated stack the double-fault handler runs on.
pub const DOUBLE_FAULT_IST_INDEX: u16 = 0;

/// Number of vectors reserved for CPU exceptions.
pub const EXCEPTION_VECTORS: u8 = 32;

/// The hardware interrupts this kernel services.
#[derive(Debug, Clone, Copy, PartialEq, Eq, Structural)]
pub enum InterruptIndex {
    Timer,
    Keyboard,
}

impl InterruptIndex {
    /// The vector of the interrupt: the master controller's base plus its line.
    pub open spec fn vector(self) -> u8 {
        match self {
            InterruptIndex::Timer => PIC_1_OFFSET,
            InterruptIndex::Keyboard => (PIC_1_OFFSET + 1) as u8,
        }
    }

    pub fn as_u8(self) -> (r: u8)
        ensures
            r == self.vector(),
            r >= EXCEPTION_VECTORS,
    {
        match self {
            InterruptIndex::Timer => PIC_1_OFFSET,
            InterruptIndex::Keyboard => PIC_1_OFFSET + 1,
        }
    }

    pub fn as_usize(self) -> (r: usize)
        ensures
            r == self.vector(),
    {
        self.as_u8() as usize
    }
}

/// The handlers of the vector table.
#[derive(Debug, Clone, Copy, PartialEq, Eq, Structural)]
pub enum Handler {
    Breakpoint,
    DoubleFault,
    Timer,
    Keyboard,
}

/// One entry of the vector table: the vector, its handler and the index of
/// the dedicated stack it runs on, if any.
#[derive(Debug, Clone, Copy, PartialEq, Eq, Structural)]
pub struct HandlerEntry {
    pub vector: u8,
    pub handler: Handler,
    pub stack: Option<u16>,
}

/// The populated entries of the vector table.
pub open spec fn handler_entries() -> Seq<HandlerEntry> {
    seq![
        HandlerEntry { vector: BREAKPOINT_VECTOR, handler: Handler::Breakpoint, stack: None },
        HandlerEntry {
            vector: DOUBLE_FAULT_VECTOR,
            handler: Handler::DoubleFault,
            stack: Some(DOUBLE_FAULT_IST_INDEX),
        },
        HandlerEntry {
            vector: InterruptIndex::Timer.vector(),
            handler: Handler::Timer,
            stack: None,
        },
        HandlerEntry {
            vector: InterruptIndex::Keyboard.vector(),
            handler: Handler::Keyboard,
            stack: None,
        },
    ]
}

/// The vector table to install: breakpoint, double fault on its own stack,
/// timer and keyboard. Hardware vectors lie above the exception vectors.
pub fn handler_table() -> (r: Vec<HandlerEntry>)
    ensures
        r@ == handler_entries(),
        forall|i: int|
            0 <= i < r@.len() && (r@[i].handler == Handler::Timer || r@[i].handler
                == Handler::Keyboard) ==> r@[i].vector >= EXCEPTION_VECTORS,
{
    let mut r: Vec<HandlerEntry> = Vec::new();
    r.push(HandlerEntry { vector: BREAKPOINT_VECTOR, handler: Handler::Breakpoint, stack: None });
    r.push(
        HandlerEntry {
            vector: DOUBLE_FAULT_VECTOR,
            handler: Handler::DoubleFault,
            stack: Some(DOUBLE_FAULT_IST_INDEX),
        },
    );
    r.push(
        HandlerEntry { vector: InterruptIndex::Timer.as_u8(), handler: Handler::Timer, stack: None },
    );
    r.push(
        HandlerEntry {
            vector: InterruptIndex::Keyboard.as_u8(),
            handler: Handler::Keyboard,
            stack: None,
        },
    );
    assert(r@ =~= handler_entries());
    r
}

/// Services a timer interrupt: counts one tick. Returns the vector to
/// acknowledge, always the timer's.
pub fn timer_interrupt_handler(clock: &mut Clock) -> (eoi: u8)
    ensures
        eoi == InterruptIndex::Timer.vector(),
        final(clock).spec_ticks() == if old(clock).spec_ticks() < u64::MAX {
            old(clock).spec_ticks() + 1
        } else {
            old(clock).spec_ticks()
        },
        final(clock).spec_cycles_per_microsecond() == old(clock).spec_cycles_per_microsecond(),
        final(clock).spec_calibrated() == old(clock).spec_calibrated(),
{
    pit_interrupt_handler(clock);
    InterruptIndex::Timer.as_u8()
}

/// Number of bytes of the UTF-8 encoding of `c`.
pub open spec fn utf8_len(c: char) -> nat {
    if (c as u32) < 0x80 {
        1
    } else if (c as u32) < 0x800 {
        2
    } else if (c as u32) < 0x10000 {
        3
    } else {
        4
    }
}

/// The bytes the console shows for `c`: the character itself if it is
/// ASCII, else one placeholder for each byte of its UTF-8 encoding.
pub open spec fn echo_bytes(c: char) -> Seq<u8> {
    if (c as u32) < 0x80 {
        seq![c as u8]
    } else {
        Seq::new(utf8_len(c), |i: int| PLACEHOLDER)
    }
}

/// The four spaces a tab stands for.
pub open spec fn tab_bytes() -> Seq<u8> {
    seq![0x20u8, 0x20u8, 0x20u8, 0x20u8]
}

/// What a key does to the console. A newline leaves it as it is: its row is
/// handed on as a line instead.
pub open spec fn key_effect(v: ConsoleView, key: Key) -> ConsoleView {
    match key {
        Key::Unicode(c) => if c == '\u{8}' {
            after_backspace(v)
        } else if c == '\t' {
            after_bytes(v, tab_bytes())
        } else if c == '\n' {
            v
        } else {
            after_bytes(v, echo_bytes(c))
        },
        Key::ArrowLeft => if v.column != PROMPT_COLUMN && v.column != 0 {
            ConsoleView { column: (v.column - 1) as nat, ..v }
        } else {
            v
        },
        Key::ArrowRight => if v.column < BUFFER_WIDTH {
            ConsoleView { column: v.column + 1, ..v }
        } else {
            v
        },
        Key::OtherRaw => v,
    }
}

/// Whether a key moves the hardware cursor to the writer's column.
pub open spec fn key_moves_cursor(v: ConsoleView, key: Key) -> bool {
    match key {
        Key::Unicode(_) => true,
        Key::ArrowLeft => v.column != PROMPT_COLUMN && v.column != 0,
        Key::ArrowRight => true,
        Key::OtherRaw => false,
    }
}

/// What handling one key asks of the caller.
pub struct KeyResponse {
    /// The bottom row, handed to the line consumer when the key was Enter.
    pub line: Option<String>,
    /// Whether the hardware cursor must go to the writer's column of the
    /// bottom row (after the line consumer, if there is a line).
    pub move_cursor: bool,
}

/// Whether handling `key` (or no key) turns console `before` into `after`
/// and asks `r` of the caller.
pub open spec fn handled(before: ConsoleView, key: Option<Key>, after: ConsoleView, r: KeyResponse) -> bool {
    match key {
        Some(k) => {
            &&& after == key_effect(before, k)
            &&& r.move_cursor == key_moves_cursor(before, k)
            &&& (r.line is Some <==> k == Key::Unicode('\n'))
            &&& (r.line matches Some(l) ==> l@ == bottom_row_text(before))
        },
        None => after == before && !r.move_cursor && r.line is None,
    }
}

/// Applies one decoded key to the console.
pub fn handle_key(writer: &mut Writer, key: Option<Key>) -> (r: KeyResponse)
    requires
        old(writer).wf(),
    ensures
        final(writer).wf(),
        handled(old(writer).view(), key, final(writer).view(), r),
{
    match key {
        Some(Key::Unicode(character)) => {
            if character == '\u{8}' {
                backspace(writer);
                KeyResponse { line: None, move_cursor: true }
            } else if character == '\t' {
                write_all(writer, 0x20, 4);
                proof {
                    assert(Seq::new(4, |i: int| 0x20u8) =~= tab_bytes());
                }
                KeyResponse { line: None, move_cursor: true }
            } else if character == '\n' {
                let line = writer.bottom_row();
                KeyResponse { line: Some(line), move_cursor: true }
            } else {
                echo(writer, character);
                KeyResponse { line: None, move_cursor: true }
            }
        },
        Some(Key::ArrowLeft) => {
            let col = writer.column();
            if col != PROMPT_COLUMN && col != 0 {
                writer.set_column(col - 1);
                KeyResponse { line: None, move_cursor: true }
            } else {
                KeyResponse { line: None, move_cursor: false }
            }
        },
        Some(Key::ArrowRight) => {
            let col = writer.column();
            if col < BUFFER_WIDTH {
                writer.set_column(col + 1);
            }
            KeyResponse { line: None, move_cursor: true }
        },
        Some(Key::OtherRaw) => KeyResponse { line: None, move_cursor: false },
        None => KeyResponse { line: None, move_cursor: false },
    }
}

/// Writes `byte` `count` times.
fn write_all(writer: &mut Writer, byte: u8, count: usize)
    requires
        old(writer).wf(),
    ensures
        final(writer).wf(),
        final(writer).view() == after_bytes(old(writer).view(), Seq::new(count as nat, |i: int| byte)),
{
    let mut i: usize = 0;
    while i < count
        invariant
            i <= count,
            writer.wf(),
            writer.view() == after_bytes(old(writer).view(), Seq::new(i as nat, |j: int| byte)),
        decreases count - i,
    {
        writer.write_byte(byte);
        assert(Seq::new((i + 1) as nat, |j: int| byte).drop_last() =~= Seq::new(i as nat, |j: int| byte));
        i += 1;
    }
}

/// Shows character `c` at the cursor.
fn echo(writer: &mut Writer, c: char)
    requires
        old(writer).wf(),
    ensures
        final(writer).wf(),
        final(writer).view() == after_bytes(old(writer).view(), echo_bytes(c)),
{
    let v: u32 = c as u32;
    if v < 0x80 {
        writer.write_byte(v as u8);
        proof {
            let bs = echo_bytes(c);
            assert(bs.drop_last() =~= Seq::<u8>::empty());
            assert(after_bytes(old(writer).view(), Seq::<u8>::empty()) == old(writer).view());
        }
    } else {
        let n: usize = if v < 0x800 { 2 } else if v < 0x10000 { 3 } else { 4 };
        write_all(writer, PLACEHOLDER, n);
        proof {
            assert(Seq::new(n as nat, |i: int| PLACEHOLDER) =~= echo_bytes(c));
        }
    }
}

/// What servicing a keyboard interrupt asks of the caller.
pub struct KeyboardOutcome {
    pub response: KeyResponse,
    /// The vector to acknowledge: always the keyboard's, whatever the key.
    pub eoi: u8,
}

/// Services a keyboard interrupt: decodes `scancode`, applies the key it
/// completes, if any, and names the one vector to acknowledge.
pub fn keyboard_interrupt_handler(
    decoder: &mut KeyDecoder,
    writer: &mut Writer,
    scancode: u8,
) -> (r: KeyboardOutcome)
    requires
        old(writer).wf(),
    ensures
        final(writer).wf(),
        r.eoi == InterruptIndex::Keyboard.vector(),
        exists|k: Option<Key>| handled(old(writer).view(), k, final(writer).view(), r.response),
{
    let key = decoder.decode(scancode);
    let response = handle_key(writer, key);
    assert(handled(old(writer).view(), key, writer.view(), response));
    KeyboardOutcome { response, eoi: InterruptIndex::Keyboard.as_u8() }
}

} // verus!
