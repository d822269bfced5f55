use vstd::prelude::*;
use crate::error::Chip8Error;

verus! {

/// One decoded instruction with its operands. A register operand is an index
/// from 0 to 15, an address has 12 bits, a row count has 4.
#[derive(Copy, Clone, PartialEq, Eq, Debug, Structural)]
pub enum OpCode {
    SysAddr(u16),
    Clear,
    Return,
    Jump(u16),
    Call(u16),
    SkipEqual(u8, u8),
    SkipNotEqual(u8, u8),
    SkipEqualRegister(u8, u8),
    Load(u8, u8),
    Add(u8, u8),
    LoadRegister(u8, u8),
    OrRegister(u8, u8),
    AndRegister(u8, u8),
    XorRegister(u8, u8),
    AddRegister(u8, u8),
    SubRegister(u8, u8),
    ShiftRightRegister(u8, u8),
    SubReverseRegister(u8, u8),
    ShiftLeftRegister(u8, u8),
    SkipNotEqualRegister(u8, u8),
    SetIndexRegister(u16),
    JumpWithOffset(u16),
    Random(u8, u8),
    Draw(u8, u8, u8),
    SkipKeyPressed(u8),
    SkipKeyNotPressed(u8),
    LoadDelay(u8),
    LoadNextKeyPress(u8),
    SetDelayTimer(u8),
    SetSoundTimer(u8),
    AddIndexRegister(u8),
    IndexAtSprite(u8),
    BinaryCodeConversion(u8),
    StoreAllRegisters(u8),
    LoadAllRegisters(u8),
}

/// The family of an instruction word: its highest hexadecimal digit.
pub open spec fn family(word: u16) -> int {
    word as int / 0x1000
}

/// The second hexadecimal digit of a word, a register operand.
pub open spec fn x_of(word: u16) -> u8 {
    ((word as int / 0x100) % 0x10) as u8
}

/// The third hexadecimal digit of a word, a register operand.
pub open spec fn y_of(word: u16) -> u8 {
    ((word as int / 0x10) % 0x10) as u8
}

/// The lowest hexadecimal digit of a word.
pub open spec fn n_of(word: u16) -> u8 {
    (word as int % 0x10) as u8
}

/// The low byte of a word, an immediate operand.
pub open spec fn kk_of(word: u16) -> u8 {
    (word as int % 0x100) as u8
}

/// The low twelve bits of a word, an address operand.
pub open spec fn nnn_of(word: u16) -> u16 {
    (word as int % 0x1000) as u16
}

/// The register-to-register instructions, family 8, told apart by the
/// lowest digit.
pub open spec fn decoded_alu(word: u16, x: u8, y: u8, n: u8) -> Result<OpCode, Chip8Error> {
    if n == 0x0 {
        Ok(OpCode::LoadRegister(x, y))
    } else if n == 0x1 {
        Ok(OpCode::OrRegister(x, y))
    } else if n == 0x2 {
        Ok(OpCode::AndRegister(x, y))
    } else if n == 0x3 {
        Ok(OpCode::XorRegister(x, y))
    } else if n == 0x4 {
        Ok(OpCode::AddRegister(x, y))
    } else if n == 0x5 {
        Ok(OpCode::SubRegister(x, y))
    } else if n == 0x6 {
        Ok(OpCode::ShiftRightRegister(x, y))
    } else if n == 0x7 {
        Ok(OpCode::SubReverseRegister(x, y))
    } else if n == 0xE {
        Ok(OpCode::ShiftLeftRegister(x, y))
    } else {
        Err(Chip8Error::UnknownOpcode(word))
    }
}

/// The timer, keypad and memory instructions, family F, told apart by the
/// low byte.
pub open spec fn decoded_misc(word: u16, x: u8, kk: u8) -> Result<OpCode, Chip8Error> {
    if kk == 0x07 {
        Ok(OpCode::LoadDelay(x))
    } else if kk == 0x0A {
        Ok(OpCode::LoadNextKeyPress(x))
    } else if kk == 0x15 {
        Ok(OpCode::SetDelayTimer(x))
    } else if kk == 0x18 {
        Ok(OpCode::SetSoundTimer(x))
    } else if kk == 0x1E {
        Ok(OpCode::AddIndexRegister(x))
    } else if kk == 0x29 {
        Ok(OpCode::IndexAtSprite(x))
    } else if kk == 0x33 {
        Ok(OpCode::BinaryCodeConversion(x))
    } else if kk == 0x55 {
        Ok(OpCode::StoreAllRegisters(x))
    } else if kk == 0x65 {
        Ok(OpCode::LoadAllRegisters(x))
    } else {
        Err(Chip8Error::UnknownOpcode(word))
    }
}

/// The instruction that a word encodes, given the fields of the word: its
/// family `f`, register operands `x` and `y`, lowest digit `n`, low byte
/// `kk` and address `nnn`.
pub open spec fn decoded_fields(word: u16, f: int, x: u8, y: u8, n: u8, kk: u8, nnn: u16) -> Result<
    OpCode,
    Chip8Error,
> {
    let unknown = Err::<OpCode, Chip8Error>(Chip8Error::UnknownOpcode(word));
    if f == 0x0 && nnn == 0x0E0 {
        Ok(OpCode::Clear)
    } else if f == 0x0 && nnn == 0x0EE {
        Ok(OpCode::Return)
    } else if f == 0x0 {
        Ok(OpCode::SysAddr(nnn))
    } else if f == 0x1 {
        Ok(OpCode::Jump(nnn))
    } else if f == 0x2 {
        Ok(OpCode::Call(nnn))
    } else if f == 0x3 {
        Ok(OpCode::SkipEqual(x, kk))
    } else if f == 0x4 {
        Ok(OpCode::SkipNotEqual(x, kk))
    } else if f == 0x5 {
        if n == 0 { Ok(OpCode::SkipEqualRegister(x, y)) } else { unknown }
    } else if f == 0x6 {
        Ok(OpCode::Load(x, kk))
    } else if f == 0x7 {
        Ok(OpCode::Add(x, kk))
    } else if f == 0x8 {
        decoded_alu(word, x, y, n)
    } else if f == 0x9 {
        if n == 0 { Ok(OpCode::SkipNotEqualRegister(x, y)) } else { unknown }
    } else if f == 0xA {
        Ok(OpCode::SetIndexRegister(nnn))
    } else if f == 0xB {
        Ok(OpCode::JumpWithOffset(nnn))
    } else if f == 0xC {
        Ok(OpCode::Random(x, kk))
    } else if f == 0xD {
        Ok(OpCode::Draw(x, y, n))
    } else if f == 0xE {
        if kk == 0x9E {
            Ok(OpCode::SkipKeyPressed(x))
        } else if kk == 0xA1 {
            Ok(OpCode::SkipKeyNotPressed(x))
        } else {
            unknown
        }
    } else {
        decoded_misc(word, x, kk)
    }
}

/// The meaning of every 16-bit word: the instruction it encodes, or the
/// error for a word that encodes none.
pub open spec fn decoded(word: u16) -> Result<OpCode, Chip8Error> {
    decoded_fields(
        word,
        family(word),
        x_of(word),
        y_of(word),
        n_of(word),
        kk_of(word),
        nnn_of(word),
    )
}

impl OpCode {
    /// Every operand is in the range its field of the instruction word
    /// allows: registers and row counts below 16, addresses below 4096.
    pub open spec fn wf(&self) -> bool {
        match *self {
            OpCode::SysAddr(a) | OpCode::Jump(a) | OpCode::Call(a) | OpCode::SetIndexRegister(a)
            | OpCode::JumpWithOffset(a) => a < 0x1000,
            OpCode::Clear | OpCode::Return => true,
            OpCode::SkipEqual(x, _) | OpCode::SkipNotEqual(x, _) | OpCode::Load(x, _)
            | OpCode::Add(x, _) | OpCode::Random(x, _) => x < 16,
            OpCode::SkipEqualRegister(x, y) | OpCode::LoadRegister(x, y)
            | OpCode::OrRegister(x, y) | OpCode::AndRegister(x, y) | OpCode::XorRegister(x, y)
            | OpCode::AddRegister(x, y) | OpCode::SubRegister(x, y)
            | OpCode::ShiftRightRegister(x, y) | OpCode::SubReverseRegister(x, y)
            | OpCode::ShiftLeftRegister(x, y) | OpCode::SkipNotEqualRegister(x, y) => x < 16 && y
                < 16,
            OpCode::Draw(x, y, n) => x < 16 && y < 16 && n < 16,
            OpCode::SkipKeyPressed(x) | OpCode::SkipKeyNotPressed(x) | OpCode::LoadDelay(x)
            | OpCode::LoadNextKeyPress(x) | OpCode::SetDelayTimer(x) | OpCode::SetSoundTimer(x)
            | OpCode::AddIndexRegister(x) | OpCode::IndexAtSprite(x)
            | OpCode::BinaryCodeConversion(x) | OpCode::StoreAllRegisters(x)
            | OpCode::LoadAllRegisters(x) => x < 16,
        }
    }

    /// An instruction that only moves the program counter, the call stack or
    /// the screen as a whole.
    pub open spec fn is_control(&self) -> bool {
        match *self {
            OpCode::SysAddr(_)
            | OpCode::Clear
            | OpCode::Return
            | OpCode::Jump(_)
            | OpCode::Call(_)
            | OpCode::SkipEqual(_, _)
            | OpCode::SkipNotEqual(_, _)
            | OpCode::SkipEqualRegister(_, _)
            | OpCode::SkipNotEqualRegister(_, _)
            | OpCode::JumpWithOffset(_)
            | OpCode::SkipKeyPressed(_)
            | OpCode::SkipKeyNotPressed(_) => true,
            _ => false,
        }
    }

    /// An instruction that computes a general register.
    pub open spec fn is_arithmetic(&self) -> bool {
        match *self {
            OpCode::Load(_, _)
            | OpCode::Add(_, _)
            | OpCode::LoadRegister(_, _)
            | OpCode::OrRegister(_, _)
            | OpCode::AndRegister(_, _)
            | OpCode::XorRegister(_, _)
            | OpCode::AddRegister(_, _)
            | OpCode::SubRegister(_, _)
            | OpCode::ShiftRightRegister(_, _)
            | OpCode::SubReverseRegister(_, _)
            | OpCode::ShiftLeftRegister(_, _)
            | OpCode::Random(_, _) => true,
            _ => false,
        }
    }

    /// An instruction on the index register, memory, the timers, sprites or
    /// the awaited key.
    pub open spec fn is_memory(&self) -> bool {
        match *self {
            OpCode::SetIndexRegister(_)
            | OpCode::Draw(_, _, _)
            | OpCode::LoadDelay(_)
            | OpCode::LoadNextKeyPress(_)
            | OpCode::SetDelayTimer(_)
            | OpCode::SetSoundTimer(_)
            | OpCode::AddIndexRegister(_)
            | OpCode::IndexAtSprite(_)
            | OpCode::BinaryCodeConversion(_)
            | OpCode::StoreAllRegisters(_)
            | OpCode::LoadAllRegisters(_) => true,
            _ => false,
        }
    }

    /// Decodes an instruction word.
    pub fn decode(op: u16) -> (r: Result<OpCode, Chip8Error>)
        ensures
            r == decoded(op),
            r matches Ok(code) ==> code.wf(),
    {
        let nibbles: (u8, u8, u8, u8) = (
            ((op & 0xF000) >> 12) as u8,
            ((op & 0x0F00) >> 8) as u8,
            ((op & 0x00F0) >> 4) as u8,
            (op & 0x000F) as u8,
        );
        let nnn: u16 = op & 0x0FFF;
        let kk: u8 = (op & 0x00FF) as u8;
        let x: u8 = nibbles.1;
        let y: u8 = nibbles.2;
        let n: u8 = nibbles.3;
        proof {
            assert((op & 0xF000) >> 12 == op / 0x1000) by (bit_vector);
            assert((op & 0x0F00) >> 8 == (op / 0x100) % 0x10) by (bit_vector);
            assert((op & 0x00F0) >> 4 == (op / 0x10) % 0x10) by (bit_vector);
            assert(op & 0x000F == op % 0x10) by (bit_vector);
            assert(op & 0x0FFF == op % 0x1000) by (bit_vector);
            assert(op & 0x00FF == op % 0x100) by (bit_vector);
            assert(op & 0x00FF == ((op & 0x00F0) >> 4) * 0x10 + (op & 0x000F)) by (bit_vector);
            assert(op & 0x0FFF == ((op & 0x0F00) >> 8) * 0x100 + (op & 0x00FF)) by (bit_vector);
            assert(nibbles.0 as int == family(op));
            assert(x == x_of(op) && y == y_of(op) && n == n_of(op));
            assert(kk == kk_of(op) && nnn == nnn_of(op));
            assert(kk as int == y as int * 0x10 + n as int);
            assert(nnn as int == x as int * 0x100 + kk as int);
        }
        match nibbles {
            (0x0, 0x0, 0xE, 0x0) => Ok(OpCode::Clear),
            (0x0, 0x0, 0xE, 0xE) => Ok(OpCode::Return),
            (0x0, _, _, _) => Ok(OpCode::SysAddr(nnn)),
            (0x1, _, _, _) => Ok(OpCode::Jump(nnn)),
            (0x2, _, _, _) => Ok(OpCode::Call(nnn)),
            (0x3, _, _, _) => Ok(OpCode::SkipEqual(x, kk)),
            (0x4, _, _, _) => Ok(OpCode::SkipNotEqual(x, kk)),
            (0x5, _, _, 0x0) => Ok(OpCode::SkipEqualRegister(x, y)),
            (0x6, _, _, _) => Ok(OpCode::Load(x, kk)),
            (0x7, _, _, _) => Ok(OpCode::Add(x, kk)),
            (0x8, _, _, 0x0) => Ok(OpCode::LoadRegister(x, y)),
            (0x8, _, _, 0x1) => Ok(OpCode::OrRegister(x, y)),
            (0x8, _, _, 0x2) => Ok(OpCode::AndRegister(x, y)),
            (0x8, _, _, 0x3) => Ok(OpCode::XorRegister(x, y)),
            (0x8, _, _, 0x4) => Ok(OpCode::AddRegister(x, y)),
            (0x8, _, _, 0x5) => Ok(OpCode::SubRegister(x, y)),
            (0x8, _, _, 0x6) => Ok(OpCode::ShiftRightRegister(x, y)),
            (0x8, _, _, 0x7) => Ok(OpCode::SubReverseRegister(x, y)),
            (0x8, _, _, 0xE) => Ok(OpCode::ShiftLeftRegister(x, y)),
            (0x9, _, _, 0x0) => Ok(OpCode::SkipNotEqualRegister(x, y)),
            (0xA, _, _, _) => Ok(OpCode::SetIndexRegister(nnn)),
            (0xB, _, _, _) => Ok(OpCode::JumpWithOffset(nnn)),
            (0xC, _, _, _) => Ok(OpCode::Random(x, kk)),
            (0xD, _, _, _) => Ok(OpCode::Draw(x, y, n)),
            (0xE, _, 0x9, 0xE) => Ok(OpCode::SkipKeyPressed(x)),
            (0xE, _, 0xA, 0x1) => Ok(OpCode::SkipKeyNotPressed(x)),
            (0xF, _, 0x0, 0x7) => Ok(OpCode::LoadDelay(x)),
            (0xF, _, 0x0, 0xA) => Ok(OpCode::LoadNextKeyPress(x)),
            (0xF, _, 0x1, 0x5) => Ok(OpCode::SetDelayTimer(x)),
            (0xF, _, 0x1, 0x8) => Ok(OpCode::SetSoundTimer(x)),
            (0xF, _, 0x1, 0xE) => Ok(OpCode::AddIndexRegister(x)),
            (0xF, _, 0x2, 0x9) => Ok(OpCode::IndexAtSprite(x)),
            (0xF, _, 0x3, 0x3) => Ok(OpCode::BinaryCodeConversion(x)),
            (0xF, _, 0x5, 0x5) => Ok(OpCode::StoreAllRegisters(x)),
            (0xF, _, 0x6, 0x5) => Ok(OpCode::LoadAllRegisters(x)),
            _ => Err(Chip8Error::UnknownOpcode(op)),
        }
    }
}

} // verus!
