//! What the bytes read from a terminal stand for, and the control sequences that erase
//! parts of the screen.
use vstd::prelude::*;

verus! {

/// A key read from the terminal: a plain byte, or a letter typed with control held.
#[derive(Debug, Clone, Copy, PartialEq, Eq, Structural)]
pub enum Key {
    Char(u8),
    Ctrl(u8),
}

/// The escape byte, which starts a control sequence.
pub const ESCAPE: u8 = 0x1b;

/// An ASCII control byte.
pub open spec fn control(b: u8) -> bool {
    b < 0x20 || b == 0x7f
}

/// The key a byte stands for, or `None` for the escape byte, whose meaning depends on
/// the byte after it. A control byte stands for its letter typed with control held.
pub fn key_of_byte(b: u8) -> (r: Option<Key>)
    ensures
        b == ESCAPE ==> r is None,
        b != ESCAPE && control(b) ==> r == Some(Key::Ctrl(b | 0b0110_0000u8)),
        b != ESCAPE && !control(b) ==> r == Some(Key::Char(b)),
{
    if b == ESCAPE {
        None
    } else if b < 0x20 || b == 0x7f {
        Some(Key::Ctrl(b | 0b0110_0000))
    } else {
        Some(Key::Char(b))
    }
}

/// The key that an escape byte followed by the control byte `b` stands for: the escape
/// key itself. Other bytes after an escape start sequences that are not read.
pub fn key_after_escape(b: u8) -> (r: Key)
    requires
        control(b),
    ensures
        r == Key::Char(ESCAPE),
{
    Key::Char(ESCAPE)
}

#[derive(Debug, Clone, Copy, PartialEq, Eq, Structural)]
pub enum EraseInMode {
    FromPos,
    ToPos,
    All,
}

/// The control sequence that erases the screen from the cursor, up to it, or whole.
pub fn erase_in_sequence(mode: EraseInMode) -> (r: Vec<u8>)
    ensures
        r@ == match mode {
            EraseInMode::FromPos => seq![0x1bu8, 0x5bu8, 0x4au8],
            EraseInMode::ToPos => seq![0x1bu8, 0x5bu8, 0x31u8, 0x4au8],
            EraseInMode::All => seq![0x1bu8, 0x5bu8, 0x32u8, 0x4au8],
        },
{
    match mode {
        EraseInMode::FromPos => vec![0x1bu8, 0x5bu8, 0x4au8],
        EraseInMode::ToPos => vec![0x1bu8, 0x5bu8, 0x31u8, 0x4au8],
        EraseInMode::All => vec![0x1bu8, 0x5bu8, 0x32u8, 0x4au8],
    }
}

/// The control sequence that erases the cursor's line from the cursor, up to it, or
/// whole.
pub fn erase_in_line_sequence(mode: EraseInMode) -> (r: Vec<u8>)
    ensures
        r@ == match mode {
            EraseInMode::FromPos => seq![0x1bu8, 0x5bu8, 0x4bu8],
            EraseInMode::ToPos => seq![0x1bu8, 0x5bu8, 0x31u8, 0x4bu8],
            EraseInMode::All => seq![0x1bu8, 0x5bu8, 0x32u8, 0x4bu8],
        },
{
    match mode {
        EraseInMode::FromPos => vec![0x1bu8, 0x5bu8, 0x4bu8],
        EraseInMode::ToPos => vec![0x1bu8, 0x5bu8, 0x31u8, 0x4bu8],
        EraseInMode::All => vec![0x1bu8, 0x5bu8, 0x32u8, 0x4bu8],
    }
}

} // verus!
