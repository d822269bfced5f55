use vstd::prelude::*;

verus! {

/// Everything that can stop an instruction.
#[derive(Clone, Copy, Debug, PartialEq, Eq, Structural)]
pub enum Chip8Error {
    /// A byte was addressed at or beyond the end of memory.
    MemoryOutOfRange(u16),
    /// A program of this many bytes does not fit behind the load address.
    RomTooLarge(usize),
    /// The font has no glyph for this value.
    InvalidFontIndex(u8),
    /// A call was made with the call stack full.
    StackOverflow,
    /// A return was made with the call stack empty.
    StackUnderflow,
    /// The word is no instruction of the machine.
    UnknownOpcode(u16),
}

} // verus!
