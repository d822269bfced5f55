use vstd::prelude::*;
use crate::error::Chip8Error;

verus! {

/// Number of bytes in the address space.
pub const RAM_SIZE: usize = 4096;

/// Address at which a program is loaded and starts.
pub const ROM_START: u16 = 0x200;

/// Address of the first font glyph.
pub const FONT_START: u16 = 0x50;

/// Number of bytes in one font glyph.
pub const GLYPH_SIZE: u16 = 5;

/// The built-in glyphs for the hexadecimal digits, five rows each.
pub const FONT: [u8; 80] = [
    0xF0, 0x90, 0x90, 0x90, 0xF0,
    0x20, 0x60, 0x20, 0x20, 0x70,
    0xF0, 0x10, 0xF0, 0x80, 0xF0,
    0xF0, 0x10, 0xF0, 0x10, 0xF0,
    0x90, 0x90, 0xF0, 0x10, 0x10,
    0xF0, 0x80, 0xF0, 0x10, 0xF0,
    0xF0, 0x80, 0xF0, 0x90, 0xF0,
    0xF0, 0x10, 0x20, 0x40, 0x40,
    0xF0, 0x90, 0xF0, 0x90, 0xF0,
    0xF0, 0x90, 0xF0, 0x10, 0xF0,
    0xF0, 0x90, 0xF0, 0x90, 0x90,
    0xE0, 0x90, 0xE0, 0x90, 0xE0,
    0xF0, 0x80, 0x80, 0x80, 0xF0,
    0xE0, 0x90, 0x90, 0x90, 0xE0,
    0xF0, 0x80, 0xF0, 0x80, 0xF0,
    0xF0, 0x80, 0xF0, 0x80, 0x80,
];

/// The byte-addressable memory of the machine.
#[derive(PartialEq, Eq, Debug)]
pub struct Memory([u8; 4096]);

/// `mem` with `data` written over the bytes from address `at` on.
pub open spec fn overlay(mem: Seq<u8>, at: int, data: Seq<u8>) -> Seq<u8> {
    Seq::new(
        mem.len(),
        |i: int|
            if at <= i < at + data.len() {
                data[i - at]
            } else {
                mem[i]
            },
    )
}

/// Memory after a reset: zero everywhere but for the font.
pub open spec fn initial_memory() -> Seq<u8> {
    overlay(Seq::new(RAM_SIZE as nat, |i: int| 0u8), FONT_START as int, FONT@)
}

/// How many of the `count` bytes from address `start` on lie inside memory.
pub open spec fn bytes_in_range(start: u16, count: int) -> int {
    if start as int >= RAM_SIZE as int {
        0
    } else if start + count <= RAM_SIZE as int {
        count
    } else {
        RAM_SIZE as int - start
    }
}

/// The byte at an address, or the error for an address outside memory.
pub open spec fn byte_at(mem: Seq<u8>, addr: u16) -> Result<u8, Chip8Error> {
    if (addr as int) < RAM_SIZE as int {
        Ok(mem[addr as int])
    } else {
        Err(Chip8Error::MemoryOutOfRange(addr))
    }
}

/// The big-endian word at an address: the byte there is the high half, the
/// next byte the low half. The error names the first byte outside memory.
pub open spec fn word_at(mem: Seq<u8>, addr: u16) -> Result<u16, Chip8Error> {
    if addr as int >= RAM_SIZE as int {
        Err(Chip8Error::MemoryOutOfRange(addr))
    } else if addr as int + 1 >= RAM_SIZE as int {
        Err(Chip8Error::MemoryOutOfRange((addr + 1) as u16))
    } else {
        Ok((mem[addr as int] as int * 0x100 + mem[addr as int + 1] as int) as u16)
    }
}

/// Where the glyph for a hexadecimal digit starts.
pub open spec fn font_address(digit: u8) -> Result<u16, Chip8Error> {
    if digit < 0x10 {
        Ok((FONT_START + GLYPH_SIZE * digit) as u16)
    } else {
        Err(Chip8Error::InvalidFontIndex(digit))
    }
}

/// What loading a program does to memory: a program shorter than the space
/// behind the load address is copied there, any other is refused.
pub open spec fn rom_loaded(mem: Seq<u8>, rom: Seq<u8>) -> Result<Seq<u8>, Chip8Error> {
    if rom.len() >= RAM_SIZE - ROM_START {
        Err(Chip8Error::RomTooLarge(rom.len() as usize))
    } else {
        Ok(overlay(mem, ROM_START as int, rom))
    }
}

impl Memory {
    /// The bytes of memory, by address.
    pub closed spec fn view(&self) -> Seq<u8> {
        self.0@
    }

    /// Memory always has its full size.
    pub proof fn lemma_len(&self)
        ensures
            self@.len() == RAM_SIZE,
    {
    }

    /// Memory after a reset, with the font in place.
    pub fn new() -> (m: Self)
        ensures
            m@ == initial_memory(),
    {
        let mut mem: [u8; 4096] = [0; 4096];
        Self::load_font(&mut mem);
        Self(mem)
    }

    pub fn get_byte(&self, addr: u16) -> (r: Result<&u8, Chip8Error>)
        ensures
            match byte_at(self@, addr) {
                Ok(b) => r matches Ok(got) && *got == b,
                Err(e) => r matches Err(got) && got == e,
            },
    {
        if (addr as usize) < RAM_SIZE {
            Ok(&self.0[addr as usize])
        } else {
            Err(Chip8Error::MemoryOutOfRange(addr))
        }
    }

    /// Hands out the byte at `addr` for writing: memory afterwards differs
    /// from memory before in that byte alone, which holds what was written.
    pub fn get_byte_mut(&mut self, addr: u16) -> (r: Result<&mut u8, Chip8Error>)
        ensures
            match byte_at(old(self)@, addr) {
                Ok(b) => r matches Ok(got) && *got == b && final(self)@ == old(self)@.update(
                    addr as int,
                    *final(got),
                ),
                Err(e) => r matches Err(got) && got == e && final(self)@ == old(self)@,
            },
    {
        if (addr as usize) < RAM_SIZE {
            Ok(&mut self.0[addr as usize])
        } else {
            Err(Chip8Error::MemoryOutOfRange(addr))
        }
    }

    pub fn get_word(&self, addr: u16) -> (r: Result<u16, Chip8Error>)
        ensures
            r == word_at(self@, addr),
    {
        let high: u8 = *self.get_byte(addr)?;
        let low: u8 = *self.get_byte(addr + 1)?;
        let high: u16 = high as u16;
        let low: u16 = low as u16;
        assert((high << 8) | low == high * 0x100 + low) by (bit_vector)
            requires
                high < 0x100,
                low < 0x100,
        ;
        Ok((high << 8) | low)
    }

    pub fn index_of_font_char(byte: u8) -> (r: Result<u16, Chip8Error>)
        ensures
            r == font_address(byte),
    {
        if byte < 0x10 {
            Ok((0x50 + (byte * 5)) as u16)
        } else {
            Err(Chip8Error::InvalidFontIndex(byte))
        }
    }

    pub fn load_rom(&mut self, rom: &[u8]) -> (r: Result<(), Chip8Error>)
        ensures
            match rom_loaded(old(self)@, rom@) {
                Ok(mem) => r == Ok::<(), Chip8Error>(()) && final(self)@ == mem,
                Err(e) => r == Err::<(), Chip8Error>(e) && final(self)@ == old(self)@,
            },
    {
        if rom.len() >= RAM_SIZE - 0x200 {
            return Err(Chip8Error::RomTooLarge(rom.len()));
        }
        let mut i: usize = 0;
        while i < rom.len()
            invariant
                i <= rom.len() < RAM_SIZE - 0x200,
                self@ == overlay(old(self)@, ROM_START as int, rom@.take(i as int)),
            decreases rom.len() - i,
        {
            self.0[0x200 + i] = rom[i];
            i += 1;
        }
        assert(rom@.take(i as int) == rom@);
        Ok(())
    }

    fn load_font(memory: &mut [u8; 4096])
        ensures
            final(memory)@ == overlay(old(memory)@, FONT_START as int, FONT@),
    {
        let mut i: usize = 0;
        while i < 80
            invariant
                i <= 80,
                memory@ == overlay(old(memory)@, FONT_START as int, FONT@.take(i as int)),
            decreases 80 - i,
        {
            memory[0x50 + i] = FONT[i];
            i += 1;
        }
        assert(FONT@.take(80) == FONT@);
    }
}

} // verus!
