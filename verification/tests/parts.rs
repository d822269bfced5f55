use chipper::clock::Clock;
use chipper::display::Display;
use chipper::error::Chip8Error;
use chipper::keyboard::Keyboard;
use chipper::memory::{Memory, FONT};
use chipper::opcode::OpCode;
use chipper::register::Registers;
use chipper::settings::Settings;
use chipper::stack::Stack;

fn lit(display: &Display) -> Vec<(usize, usize)> {
    let mut found = Vec::new();
    for (y, row) in display.get_frame_buffer().iter().enumerate() {
        for (x, pixel) in row.iter().enumerate() {
            if *pixel != 0 {
                found.push((x, y));
            }
        }
    }
    found
}

#[test]
fn decode_every_family() {
    assert_eq!(OpCode::decode(0x00E0), Ok(OpCode::Clear));
    assert_eq!(OpCode::decode(0x00EE), Ok(OpCode::Return));
    assert_eq!(OpCode::decode(0x0123), Ok(OpCode::SysAddr(0x123)));
    assert_eq!(OpCode::decode(0x00E1), Ok(OpCode::SysAddr(0x0E1)));
    assert_eq!(OpCode::decode(0x1ABC), Ok(OpCode::Jump(0xABC)));
    assert_eq!(OpCode::decode(0x2ABC), Ok(OpCode::Call(0xABC)));
    assert_eq!(OpCode::decode(0x3A12), Ok(OpCode::SkipEqual(0xA, 0x12)));
    assert_eq!(OpCode::decode(0x4A12), Ok(OpCode::SkipNotEqual(0xA, 0x12)));
    assert_eq!(OpCode::decode(0x5AB0), Ok(OpCode::SkipEqualRegister(0xA, 0xB)));
    assert_eq!(OpCode::decode(0x6A3C), Ok(OpCode::Load(0xA, 0x3C)));
    assert_eq!(OpCode::decode(0x7A3C), Ok(OpCode::Add(0xA, 0x3C)));
    assert_eq!(OpCode::decode(0x8120), Ok(OpCode::LoadRegister(1, 2)));
    assert_eq!(OpCode::decode(0x8121), Ok(OpCode::OrRegister(1, 2)));
    assert_eq!(OpCode::decode(0x8122), Ok(OpCode::AndRegister(1, 2)));
    assert_eq!(OpCode::decode(0x8123), Ok(OpCode::XorRegister(1, 2)));
    assert_eq!(OpCode::decode(0x8124), Ok(OpCode::AddRegister(1, 2)));
    assert_eq!(OpCode::decode(0x8125), Ok(OpCode::SubRegister(1, 2)));
    assert_eq!(OpCode::decode(0x8126), Ok(OpCode::ShiftRightRegister(1, 2)));
    assert_eq!(OpCode::decode(0x8127), Ok(OpCode::SubReverseRegister(1, 2)));
    assert_eq!(OpCode::decode(0x812E), Ok(OpCode::ShiftLeftRegister(1, 2)));
    assert_eq!(OpCode::decode(0x9AB0), Ok(OpCode::SkipNotEqualRegister(0xA, 0xB)));
    assert_eq!(OpCode::decode(0xA123), Ok(OpCode::SetIndexRegister(0x123)));
    assert_eq!(OpCode::decode(0xB123), Ok(OpCode::JumpWithOffset(0x123)));
    assert_eq!(OpCode::decode(0xC1FF), Ok(OpCode::Random(1, 0xFF)));
    assert_eq!(OpCode::decode(0xD125), Ok(OpCode::Draw(1, 2, 5)));
    assert_eq!(OpCode::decode(0xE19E), Ok(OpCode::SkipKeyPressed(1)));
    assert_eq!(OpCode::decode(0xE1A1), Ok(OpCode::SkipKeyNotPressed(1)));
    assert_eq!(OpCode::decode(0xF107), Ok(OpCode::LoadDelay(1)));
    assert_eq!(OpCode::decode(0xF10A), Ok(OpCode::LoadNextKeyPress(1)));
    assert_eq!(OpCode::decode(0xF115), Ok(OpCode::SetDelayTimer(1)));
    assert_eq!(OpCode::decode(0xF118), Ok(OpCode::SetSoundTimer(1)));
    assert_eq!(OpCode::decode(0xF11E), Ok(OpCode::AddIndexRegister(1)));
    assert_eq!(OpCode::decode(0xF129), Ok(OpCode::IndexAtSprite(1)));
    assert_eq!(OpCode::decode(0xF133), Ok(OpCode::BinaryCodeConversion(1)));
    assert_eq!(OpCode::decode(0xF155), Ok(OpCode::StoreAllRegisters(1)));
    assert_eq!(OpCode::decode(0xF165), Ok(OpCode::LoadAllRegisters(1)));
}

#[test]
fn decode_unknown_words() {
    for word in [0x5AB1u16, 0x8128, 0x812F, 0x9AB1, 0xE19F, 0xE1A0, 0xE000, 0xF000, 0xF1FF, 0xF166] {
        assert_eq!(OpCode::decode(word), Err(Chip8Error::UnknownOpcode(word)));
    }
}

#[test]
fn decode_is_total() {
    let mut known = 0u32;
    for word in 0..=u16::MAX {
        match OpCode::decode(word) {
            Ok(_) => known += 1,
            Err(e) => assert_eq!(e, Chip8Error::UnknownOpcode(word)),
        }
    }
    // Families 0-4, 6, 7, A-D whole; 5 and 9 with digit 0; 8 with nine
    // digits; E with two low bytes; F with nine.
    assert_eq!(known, 11 * 4096 + 2 * 256 + 9 * 256 + 2 * 16 + 9 * 16);
}

#[test]
fn memory_starts_with_font_only() {
    let memory = Memory::new();
    for addr in 0..4096u16 {
        let expected = if (0x50..0x50 + 80).contains(&addr) {
            FONT[usize::from(addr) - 0x50]
        } else {
            0
        };
        assert_eq!(*memory.get_byte(addr).unwrap(), expected);
    }
    assert_eq!(*memory.get_byte(0x50).unwrap(), 0xF0);
    assert_eq!(*memory.get_byte(0x9B).unwrap(), 0xF0);
    assert_eq!(*memory.get_byte(0x9F).unwrap(), 0x80);
}

#[test]
fn memory_bounds() {
    let mut memory = Memory::new();
    assert!(memory.get_byte(4095).is_ok());
    assert_eq!(memory.get_byte(4096), Err(Chip8Error::MemoryOutOfRange(4096)));
    assert_eq!(memory.get_byte(0xFFFF), Err(Chip8Error::MemoryOutOfRange(0xFFFF)));
    assert!(memory.get_byte_mut(4096).is_err());
    assert!(memory.get_byte_mut(0xFFFF).is_err());
    *memory.get_byte_mut(4095).unwrap() = 0x7E;
    assert_eq!(*memory.get_byte(4095).unwrap(), 0x7E);
    assert_eq!(*memory.get_byte(4094).unwrap(), 0);
}

#[test]
fn memory_words_are_big_endian() {
    let mut memory = Memory::new();
    *memory.get_byte_mut(0x300).unwrap() = 0x12;
    *memory.get_byte_mut(0x301).unwrap() = 0xAB;
    assert_eq!(memory.get_word(0x300), Ok(0x12AB));
    assert_eq!(memory.get_word(0x301), Ok(0xAB00));
    assert_eq!(memory.get_word(4094), Ok(0));
    assert_eq!(memory.get_word(4095), Err(Chip8Error::MemoryOutOfRange(4096)));
    assert_eq!(memory.get_word(4096), Err(Chip8Error::MemoryOutOfRange(4096)));
    assert_eq!(memory.get_word(0xFFFF), Err(Chip8Error::MemoryOutOfRange(0xFFFF)));
}

#[test]
fn font_indexing() {
    assert_eq!(Memory::index_of_font_char(0x0), Ok(0x50));
    assert_eq!(Memory::index_of_font_char(0x1), Ok(0x55));
    assert_eq!(Memory::index_of_font_char(0xF), Ok(0x9B));
    assert_eq!(Memory::index_of_font_char(0x10), Err(Chip8Error::InvalidFontIndex(0x10)));
    assert_eq!(Memory::index_of_font_char(0xFF), Err(Chip8Error::InvalidFontIndex(0xFF)));
}

#[test]
fn rom_is_copied_to_the_load_address() {
    let mut memory = Memory::new();
    assert_eq!(memory.load_rom(&[1, 2, 3]), Ok(()));
    assert_eq!(*memory.get_byte(0x1FF).unwrap(), 0);
    assert_eq!(*memory.get_byte(0x200).unwrap(), 1);
    assert_eq!(*memory.get_byte(0x201).unwrap(), 2);
    assert_eq!(*memory.get_byte(0x202).unwrap(), 3);
    assert_eq!(*memory.get_byte(0x203).unwrap(), 0);
    assert_eq!(*memory.get_byte(0x50).unwrap(), 0xF0);
}

#[test]
fn rom_size_limit() {
    let mut memory = Memory::new();
    let largest = vec![0xAA; 4096 - 0x200 - 1];
    assert_eq!(memory.load_rom(&largest), Ok(()));
    assert_eq!(*memory.get_byte(0x200).unwrap(), 0xAA);
    assert_eq!(*memory.get_byte(4094).unwrap(), 0xAA);
    assert_eq!(*memory.get_byte(4095).unwrap(), 0);

    let mut untouched = Memory::new();
    let too_large = vec![0xBB; 4096 - 0x200];
    assert_eq!(untouched.load_rom(&too_large), Err(Chip8Error::RomTooLarge(3584)));
    assert_eq!(untouched, Memory::new());
    assert_eq!(untouched.load_rom(&vec![0; 5000]), Err(Chip8Error::RomTooLarge(5000)));
    assert_eq!(untouched, Memory::new());
    assert_eq!(untouched.load_rom(&[]), Ok(()));
    assert_eq!(untouched, Memory::new());
}

#[test]
fn registers_read_back() {
    let mut registers = Registers::new();
    for i in 0..16u8 {
        assert_eq!(*registers.index(i), 0);
    }
    *registers.index_mut(0xF) = 0x99;
    *registers.index_mut(0x0) = 0x11;
    assert_eq!(*registers.index(0xF), 0x99);
    assert_eq!(*registers.index(0x0), 0x11);
    assert_eq!(*registers.index(0x1), 0);
}

#[test]
fn stack_round_trip() {
    let mut stack = Stack::new();
    for i in 0..16u16 {
        assert_eq!(stack.push(0x200 + i), Ok(()));
    }
    for i in (0..16u16).rev() {
        assert_eq!(stack.pop(), Ok(0x200 + i));
    }
    assert_eq!(stack.pop(), Err(Chip8Error::StackUnderflow));
}

#[test]
fn stack_overflow_on_seventeenth_push() {
    let mut stack = Stack::new();
    for i in 0..16u16 {
        assert_eq!(stack.push(i), Ok(()));
    }
    assert_eq!(stack.push(16), Err(Chip8Error::StackOverflow));
    assert_eq!(stack.pop(), Ok(15));
    assert_eq!(stack.push(99), Ok(()));
    assert_eq!(stack.pop(), Ok(99));
}

#[test]
fn stack_underflow_when_empty() {
    let mut stack = Stack::new();
    assert_eq!(stack.pop(), Err(Chip8Error::StackUnderflow));
    assert_eq!(stack.push(5), Ok(()));
    assert_eq!(stack.pop(), Ok(5));
    assert_eq!(stack.pop(), Err(Chip8Error::StackUnderflow));
}

#[test]
fn display_clear_and_fill() {
    let mut display = Display::new();
    assert!(lit(&display).is_empty());
    display.fill_buffer();
    assert_eq!(lit(&display).len(), 64 * 32);
    assert!(display.get_frame_buffer().iter().all(|row| row.iter().all(|p| *p == 1)));
    display.clear();
    assert_eq!(display, Display::new());
}

#[test]
fn draw_pixel_toggles_and_wraps() {
    let mut display = Display::new();
    assert!(!display.draw_pixel(3, 4, 1));
    assert_eq!(lit(&display), vec![(3, 4)]);
    assert!(!display.draw_pixel(5, 6, 0));
    assert_eq!(lit(&display), vec![(3, 4)]);
    assert!(!display.draw_pixel(3, 4, 0));
    assert!(display.draw_pixel(64 + 3, 32 + 4, 1));
    assert!(lit(&display).is_empty());
}

#[test]
fn draw_byte_most_significant_bit_first() {
    let mut display = Display::new();
    assert!(!display.draw_byte(0b1010_0001, 2, 1));
    assert_eq!(lit(&display), vec![(2, 1), (4, 1), (9, 1)]);
}

#[test]
fn draw_byte_wraps_start_and_clips_right_edge() {
    let mut display = Display::new();
    assert!(!display.draw_byte(0xFF, 64 + 60, 32 + 31));
    assert_eq!(lit(&display), vec![(60, 31), (61, 31), (62, 31), (63, 31)]);

    let mut edge = Display::new();
    assert!(!edge.draw_byte(0x01, 60, 0));
    assert!(lit(&edge).is_empty());
}

#[test]
fn draw_byte_twice_clears() {
    let mut display = Display::new();
    assert!(!display.draw_byte(0xF0, 10, 10));
    assert_eq!(lit(&display).len(), 4);
    assert!(display.draw_byte(0xF0, 10, 10));
    assert_eq!(display, Display::new());
}

#[test]
fn draw_byte_collision_only_on_lit_pixels() {
    let mut display = Display::new();
    assert!(!display.draw_byte(0b1100_0000, 0, 0));
    assert!(!display.draw_byte(0b0011_0000, 0, 0));
    assert!(display.draw_byte(0b0001_1000, 0, 0));
    assert_eq!(lit(&display), vec![(0, 0), (1, 0), (2, 0), (4, 0)]);
    assert!(!display.draw_byte(0x00, 0, 0));
}

#[test]
fn keyboard_reports_lowest_key() {
    let mut keyboard = Keyboard::new();
    assert!(!keyboard.is_waiting());
    assert_eq!(keyboard.get_next_key(), None);
    assert!(keyboard.is_waiting());

    let mut keys = [false; 16];
    keys[0xC] = true;
    keys[0x3] = true;
    keyboard.set_keys(keys);
    assert!(keyboard.is_waiting());
    assert!(keyboard.is_key_pressed(0x3));
    assert!(keyboard.is_key_pressed(0xC));
    assert!(!keyboard.is_key_pressed(0x0));
    assert_eq!(keyboard.get_next_key(), Some(0x3));
    assert!(!keyboard.is_waiting());

    let mut last = [false; 16];
    last[0xF] = true;
    keyboard.set_keys(last);
    assert_eq!(keyboard.get_next_key(), Some(0xF));
    let mut first = [true; 16];
    first[0] = true;
    keyboard.set_keys(first);
    assert_eq!(keyboard.get_next_key(), Some(0x0));
}

#[test]
fn settings_defaults() {
    let settings = Settings::new();
    assert_eq!(settings.rom_addr, 0x200);
    assert_eq!(settings.cpu_freq, 700);
    assert_eq!(settings.delay_freq, 60);
    assert_eq!(settings.sound_freq, 60);
    assert!(!settings.load_store_quirk);
    assert!(settings.shift_quirk);
    assert!(!settings.index_overflow);
    assert!(!settings.vertical_wrap);
    assert!(!settings.jump_quirk);
}

#[test]
fn clock_ticks_once_per_period() {
    let mut clock = Clock::new(4, 1_000);
    assert!(!clock.tick(1_000));
    assert!(!clock.tick(1_000 + 249_999_999));
    assert!(clock.tick(1_000 + 250_000_000));
    assert!(!clock.tick(1_000 + 250_000_001));
    assert!(!clock.tick(0));
}

#[test]
fn clock_catches_up_tick_by_tick() {
    let mut clock = Clock::new(1_000_000_000, 0);
    assert!(clock.tick(3));
    assert!(clock.tick(3));
    assert!(clock.tick(3));
    assert!(!clock.tick(3));
    assert!(clock.tick(4));
}
