use chipper::chip::Chip8;
use chipper::memory::Memory;
use chipper::opcode::OpCode;

#[test]
fn sysaddr() {
    let mut cpu = Chip8::new();
    assert!(cpu.execute(OpCode::SysAddr(0x0000)).is_ok());
    assert_eq!(cpu, Chip8::new());
}

#[test]
fn clear() {
    let mut cpu = Chip8::new();
    cpu.display.fill_buffer();
    assert!(cpu.execute(OpCode::Clear).is_ok());
    assert_eq!(cpu, Chip8::new());
}

#[test]
fn return_() {
    const ADDR: u16 = 0x420;
    let mut cpu = Chip8::new();
    cpu.stack.push(ADDR).unwrap();
    assert!(cpu.execute(OpCode::Return).is_ok());
    assert_eq!(cpu.program_counter, ADDR);
}

#[test]
fn jump() {
    const ADDR: u16 = 0x420;
    let mut cpu = Chip8::new();
    assert!(cpu.execute(OpCode::Jump(ADDR)).is_ok());
    assert_eq!(cpu.program_counter, ADDR);
}

#[test]
fn call() {
    const CALL_ADDR: u16 = 0x420;
    const PROGRAM_COUNTER: u16 = 0x360;
    let mut cpu = Chip8::new();
    cpu.program_counter = PROGRAM_COUNTER;

    assert!(cpu.execute(OpCode::Call(CALL_ADDR)).is_ok());
    assert_eq!(cpu.program_counter, CALL_ADDR);
    assert_eq!(cpu.stack.pop().unwrap(), PROGRAM_COUNTER);
}

#[test]
fn skip_equal() {
    let mut skip = Chip8::new();
    *skip.v.index_mut(0xC) = 0xAB;
    assert!(skip.execute(OpCode::SkipEqual(0xC, 0xAB)).is_ok());
    assert_eq!(skip.program_counter, 0x200 + 2);

    let mut dont_skip = Chip8::new();
    *dont_skip.v.index_mut(0xC) = 0xAD;
    assert!(dont_skip.execute(OpCode::SkipEqual(0xC, 0xAB)).is_ok());
    assert_eq!(dont_skip.program_counter, 0x200 + 0);
}

#[test]
fn skip_not_equal() {
    let mut skip = Chip8::new();
    *skip.v.index_mut(0xC) = 0xAD;
    assert!(skip.execute(OpCode::SkipNotEqual(0xC, 0xAB)).is_ok());
    assert_eq!(skip.program_counter, 0x200 + 2);

    let mut dont_skip = Chip8::new();
    *dont_skip.v.index_mut(0xC) = 0xAB;
    assert!(dont_skip.execute(OpCode::SkipNotEqual(0xC, 0xAB)).is_ok());
    assert_eq!(dont_skip.program_counter, 0x200 + 0);
}

#[test]
fn skip_equal_register() {
    let mut skip = Chip8::new();
    *skip.v.index_mut(0xC) = 0xA;
    *skip.v.index_mut(0xB) = 0xA;
    assert!(skip.execute(OpCode::SkipEqualRegister(0xC, 0xB)).is_ok());
    assert_eq!(skip.program_counter, 0x200 + 2);

    let mut dont_skip = Chip8::new();
    *dont_skip.v.index_mut(0xC) = 0xC;
    *dont_skip.v.index_mut(0xB) = 0xB;
    assert!(dont_skip
        .execute(OpCode::SkipEqualRegister(0xC, 0xB))
        .is_ok());
    assert_eq!(dont_skip.program_counter, 0x200 + 0);
}

#[test]
fn load() {
    let mut cpu = Chip8::new();
    assert!(cpu.execute(OpCode::Load(0xC, 0xAB)).is_ok());
    assert_eq!(*cpu.v.index(0xC), 0xAB);
}

#[test]
fn add() {
    let mut cpu = Chip8::new();
    *cpu.v.index_mut(0xC) = 0xA;
    assert!(cpu.execute(OpCode::Add(0xC, 0xFC)).is_ok());
    assert_eq!(*cpu.v.index(0xC), 0x06);
    assert_eq!(*cpu.v.index(0xF), 0);
}

#[test]
fn load_register() {
    let mut cpu = Chip8::new();
    *cpu.v.index_mut(0xC) = 0xFF;
    assert!(cpu.execute(OpCode::LoadRegister(0x0, 0xC)).is_ok());
    assert_eq!(*cpu.v.index(0x0), *cpu.v.index(0xC));
    assert_eq!(*cpu.v.index(0x0), 0xFF);
}

#[test]
fn or_register() {
    let mut cpu = Chip8::new();
    *cpu.v.index_mut(0x0) = 0x0F;
    *cpu.v.index_mut(0x1) = 0xF0;
    assert!(cpu.execute(OpCode::OrRegister(0x0, 0x1)).is_ok());
    assert_eq!(*cpu.v.index(0x0), 0xFF);
    assert_eq!(*cpu.v.index(0x1), 0xF0);
}

#[test]
fn and_register() {
    let mut cpu = Chip8::new();
    *cpu.v.index_mut(0x0) = 0x2F;
    *cpu.v.index_mut(0x1) = 0xF2;
    assert!(cpu.execute(OpCode::AndRegister(0x0, 0x1)).is_ok());
    assert_eq!(*cpu.v.index(0x0), 0x22);
    assert_eq!(*cpu.v.index(0x1), 0xF2);
}

#[test]
fn xor_register() {
    let mut cpu = Chip8::new();
    *cpu.v.index_mut(0x0) = 0b1010_1010;
    *cpu.v.index_mut(0x1) = 0b0101_0101;
    assert!(cpu.execute(OpCode::XorRegister(0x0, 0x1)).is_ok());
    assert_eq!(*cpu.v.index(0x0), 0b1111_1111);
    assert_eq!(*cpu.v.index(0x1), 0b0101_0101);
}

#[test]
fn add_register() {
    let mut set_flag = Chip8::new();
    *set_flag.v.index_mut(0x0) = 0xAF;
    *set_flag.v.index_mut(0x1) = 0xBC;
    assert!(set_flag.execute(OpCode::AddRegister(0x0, 0x1)).is_ok());
    assert_eq!(*set_flag.v.index(0x0), 0x6B);
    assert_eq!(*set_flag.v.index(0x1), 0xBC);
    assert_eq!(*set_flag.v.index(0xF), 0x01);

    let mut no_flag = Chip8::new();
    *no_flag.v.index_mut(0x0) = 0x0F;
    *no_flag.v.index_mut(0x1) = 0xE1;
    assert!(no_flag.execute(OpCode::AddRegister(0x0, 0x1)).is_ok());
    assert_eq!(*no_flag.v.index(0x0), 0xF0);
    assert_eq!(*no_flag.v.index(0x1), 0xE1);
    assert_eq!(*no_flag.v.index(0xF), 0x00);
}

#[test]
fn sub_register() {
    let mut set_flag = Chip8::new();
    *set_flag.v.index_mut(0x0) = 0xFF;
    *set_flag.v.index_mut(0x1) = 0x01;
    assert!(set_flag.execute(OpCode::SubRegister(0x0, 0x1)).is_ok());
    assert_eq!(*set_flag.v.index(0x0), 0xFE);
    assert_eq!(*set_flag.v.index(0x1), 0x01);
    assert_eq!(*set_flag.v.index(0xF), 0x01);

    let mut no_flag = Chip8::new();
    *no_flag.v.index_mut(0x0) = 0x01;
    *no_flag.v.index_mut(0x1) = 0x02;
    assert!(no_flag.execute(OpCode::SubRegister(0x0, 0x1)).is_ok());
    assert_eq!(*no_flag.v.index(0x0), 0xFF);
    assert_eq!(*no_flag.v.index(0x1), 0x02);
    assert_eq!(*no_flag.v.index(0xF), 0x00);
}

#[test]
fn shift_right_register() {
    let mut set_flag = Chip8::new();
    *set_flag.v.index_mut(0x0) = 0x11;
    assert!(set_flag
        .execute(OpCode::ShiftRightRegister(0x0, 0x0))
        .is_ok());
    assert_eq!(*set_flag.v.index(0x0), 0x08);
    assert_eq!(*set_flag.v.index(0xF), 0x01);

    let mut no_flag = Chip8::new();
    *no_flag.v.index_mut(0x0) = 0x10;
    assert!(no_flag
        .execute(OpCode::ShiftRightRegister(0x0, 0x0))
        .is_ok());
    assert_eq!(*no_flag.v.index(0x0), 0x08);
    assert_eq!(*no_flag.v.index(0xF), 0x00);
}

#[test]
fn sub_reverse_register() {
    let mut set_flag = Chip8::new();
    *set_flag.v.index_mut(0x0) = 0x01;
    *set_flag.v.index_mut(0x1) = 0x02;
    assert!(set_flag
        .execute(OpCode::SubReverseRegister(0x0, 0x1))
        .is_ok());
    assert_eq!(*set_flag.v.index(0x0), 0x01);
    assert_eq!(*set_flag.v.index(0x1), 0x02);
    assert_eq!(*set_flag.v.index(0xF), 0x01);

    let mut no_flag = Chip8::new();
    *no_flag.v.index_mut(0x0) = 0x0B;
    *no_flag.v.index_mut(0x1) = 0x0A;
    assert!(no_flag
        .execute(OpCode::SubReverseRegister(0x0, 0x1))
        .is_ok());
    assert_eq!(*no_flag.v.index(0x0), 0xFF);
    assert_eq!(*no_flag.v.index(0x1), 0x0A);
    assert_eq!(*no_flag.v.index(0xF), 0x00);
}

#[test]
fn shift_left_register() {
    let mut set_flag = Chip8::new();
    *set_flag.v.index_mut(0x0) = 0x88;
    assert!(set_flag
        .execute(OpCode::ShiftLeftRegister(0x0, 0x0))
        .is_ok());
    assert_eq!(*set_flag.v.index(0x0), 0x10);
    assert_eq!(*set_flag.v.index(0xF), 0x01);

    let mut no_flag = Chip8::new();
    *no_flag.v.index_mut(0x0) = 0x01;
    assert!(no_flag.execute(OpCode::ShiftLeftRegister(0x0, 0x0)).is_ok());
    assert_eq!(*no_flag.v.index(0x0), 0x02);
    assert_eq!(*no_flag.v.index(0xF), 0x00);
}

#[test]
fn skip_not_equal_register() {
    let mut skip = Chip8::new();
    *skip.v.index_mut(0xC) = 0xC;
    *skip.v.index_mut(0xB) = 0xB;
    assert!(skip.execute(OpCode::SkipEqualRegister(0xC, 0xB)).is_ok());
    assert_eq!(skip.program_counter, 0x200 + 0);

    let mut not_skip = Chip8::new();
    *not_skip.v.index_mut(0xC) = 0xA;
    *not_skip.v.index_mut(0xB) = 0xA;
    assert!(not_skip
        .execute(OpCode::SkipEqualRegister(0xC, 0xB))
        .is_ok());
    assert_eq!(not_skip.program_counter, 0x200 + 2);
}

#[test]
fn set_index_register() {
    const ADDR: u16 = 0x500;

    let mut cpu = Chip8::new();
    assert!(cpu.execute(OpCode::SetIndexRegister(ADDR)).is_ok());
    assert_eq!(cpu.index, 0x500);
}

#[test]
fn jump_with_offset() {
    const ADDR: u16 = 0x500;

    let mut cpu = Chip8::new();
    *cpu.v.index_mut(0) = 0x20;
    assert!(cpu.execute(OpCode::JumpWithOffset(ADDR)).is_ok());
    assert_eq!(cpu.program_counter, 0x520);
}

#[test]
fn random() {
    let mut cpu = Chip8::new();
    assert!(cpu.execute(OpCode::Random(0x0, 0xFF)).is_ok());
}

#[test]
fn skip_key_pressed() {
    let mut cpu = Chip8::new();
    let mut keys = [false; 16];
    keys[0xA] = true;
    cpu.input.set_keys(keys);

    assert!(cpu.execute(OpCode::SkipKeyPressed(0xA)).is_ok());
    assert_eq!(cpu.program_counter, 0x200 + 2);
}

#[test]
fn skip_key_not_pressed() {
    let mut cpu = Chip8::new();
    let mut keys = [false; 16];
    keys[0xA] = true;
    cpu.input.set_keys(keys);

    assert!(cpu.execute(OpCode::SkipKeyNotPressed(0xA)).is_ok());
    assert_eq!(cpu.program_counter, 0x200 + 0);
}

#[test]
fn load_delay() {
    let mut cpu = Chip8::new();
    cpu.delay_timer = 0x20;
    assert!(cpu.execute(OpCode::LoadDelay(0x0)).is_ok());
    assert_eq!(*cpu.v.index(0x0), cpu.delay_timer);
}

#[test]
fn load_next_key_press() {
    let mut cpu = Chip8::new();
    let mut keys = [false; 16];
    keys[0xA] = true;
    cpu.input.set_keys(keys);

    assert!(cpu.execute(OpCode::LoadNextKeyPress(0x0)).is_ok());
    assert_eq!(*cpu.v.index(0x0), 0xA);
}

#[test]
fn set_delay_timer() {
    let mut cpu = Chip8::new();
    *cpu.v.index_mut(0x0) = 0x20;
    cpu.delay_timer = 0x1;
    assert!(cpu.execute(OpCode::SetDelayTimer(0x0)).is_ok());
    assert_eq!(*cpu.v.index(0x0), cpu.delay_timer);
}

#[test]
fn set_sound_timer() {
    let mut cpu = Chip8::new();
    *cpu.v.index_mut(0x0) = 0x20;
    cpu.sound_timer = 0x1;
    assert!(cpu.execute(OpCode::SetSoundTimer(0x0)).is_ok());
    assert_eq!(*cpu.v.index(0x0), cpu.sound_timer);
}

#[test]
fn add_index_register() {
    let mut cpu = Chip8::new();
    cpu.index = 0x01;
    *cpu.v.index_mut(0x0) = 0x20;
    assert!(cpu.execute(OpCode::AddIndexRegister(0x0)).is_ok());
    assert_eq!(cpu.index, 0x21);
    assert_eq!(*cpu.v.index(0xF), 0x0);
}

#[test]
fn index_at_sprite() {
    let mut cpu = Chip8::new();
    assert!(cpu.execute(OpCode::IndexAtSprite(0x1)).is_ok());
    assert_eq!(cpu.index, Memory::index_of_font_char(0x1).unwrap());
}

#[test]
fn binary_code_conversion() {
    let mut cpu = Chip8::new();
    *cpu.v.index_mut(0x0) = 152;
    cpu.index = 0x100;
    assert!(cpu.execute(OpCode::BinaryCodeConversion(0x0)).is_ok());
    assert_eq!(*cpu.v.index(0x0), 152);
    assert_eq!(cpu.index, 0x100);
    assert_eq!(*cpu.memory.get_byte(0x100).unwrap(), 0x1);
    assert_eq!(*cpu.memory.get_byte(0x101).unwrap(), 0x5);
    assert_eq!(*cpu.memory.get_byte(0x102).unwrap(), 0x2);
}

#[test]
fn store_all_registers() {
    let mut cpu = Chip8::new();
    cpu.index = 0x100;
    *cpu.v.index_mut(0x0) = 0xB;
    *cpu.v.index_mut(0x1) = 0xE;
    *cpu.v.index_mut(0x2) = 0xE;
    *cpu.v.index_mut(0x3) = 0xF;

    assert!(cpu.execute(OpCode::StoreAllRegisters(0x3)).is_ok());
    assert_eq!(*cpu.memory.get_byte(0x100).unwrap(), 0xB);
    assert_eq!(*cpu.memory.get_byte(0x101).unwrap(), 0xE);
    assert_eq!(*cpu.memory.get_byte(0x102).unwrap(), 0xE);
    assert_eq!(*cpu.memory.get_byte(0x103).unwrap(), 0xF);
}

#[test]
fn load_all_registers() {
    let mut cpu = Chip8::new();
    cpu.index = 0x100;
    *cpu.memory.get_byte_mut(0x100).unwrap() = 0xB;
    *cpu.memory.get_byte_mut(0x101).unwrap() = 0xE;
    *cpu.memory.get_byte_mut(0x102).unwrap() = 0xE;
    *cpu.memory.get_byte_mut(0x103).unwrap() = 0xF;

    assert!(cpu.execute(OpCode::LoadAllRegisters(0x3)).is_ok());
    assert_eq!(*cpu.v.index(0x0), 0xB);
    assert_eq!(*cpu.v.index(0x1), 0xE);
    assert_eq!(*cpu.v.index(0x2), 0xE);
    assert_eq!(*cpu.v.index(0x3), 0xF);
}
