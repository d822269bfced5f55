use vstd::prelude::*;
use crate::display::{
    is_frame, sprite_collides, sprite_drawn, uniform_frame, Display, FrameBuffer,
};
use crate::error::Chip8Error;
use crate::keyboard::{lowest_pressed, Keyboard, KEY_COUNT};
use crate::memory::{
    bytes_in_range, font_address, initial_memory, overlay, rom_loaded, word_at, Memory, RAM_SIZE,
    ROM_START,
};
use crate::opcode::{decoded, OpCode};
use crate::register::{Registers, FLAG_REGISTER, REGISTER_COUNT};
use crate::settings::{default_settings, Settings};
use crate::stack::{popped, pushed, Stack};

verus! {

/// The whole machine: its parts, the index register, the program counter
/// and the two timers.
#[derive(PartialEq, Eq, Debug)]
pub struct Chip8 {
    pub display: Display,
    pub memory: Memory,
    pub v: Registers,
    pub stack: Stack,
    pub input: Keyboard,
    pub settings: Settings,
    pub index: u16,
    pub program_counter: u16,
    pub delay_timer: u8,
    pub sound_timer: u8,
}

/// The machine as plain values.
#[verifier::ext_equal]
pub struct MachineState {
    /// The pixels by row, then column.
    pub display: Seq<Seq<u8>>,
    /// The bytes of memory, by address.
    pub memory: Seq<u8>,
    /// The general registers, by index.
    pub v: Seq<u8>,
    /// The return addresses, oldest first.
    pub stack: Seq<u16>,
    /// The state of each key, by key number.
    pub keys: Seq<bool>,
    /// Whether the last wait for a key found none down.
    pub waiting: bool,
    pub index: u16,
    pub pc: u16,
    pub delay_timer: u8,
    pub sound_timer: u8,
    pub settings: Settings,
}

/// What running an instruction gives: the state it leaves and whether it
/// succeeded.
pub type Outcome = (MachineState, Result<(), Chip8Error>);

/// The value of the flag register for a condition.
pub open spec fn flag_value(cond: bool) -> u8 {
    if cond {
        1
    } else {
        0
    }
}

/// An integer reduced to a byte.
pub open spec fn wrap8(i: int) -> u8 {
    (i % 0x100) as u8
}

/// An integer reduced to 16 bits.
pub open spec fn wrap16(i: int) -> u16 {
    (i % 0x1_0000) as u16
}

/// The sprite rows that a draw instruction reads: the first `rows` bytes
/// from address `index` on.
pub open spec fn sprite_at(mem: Seq<u8>, index: u16, rows: int) -> Seq<u8> {
    Seq::new(rows as nat, |j: int| mem[index + j])
}

/// The three decimal digits of a byte, hundreds first.
pub open spec fn decimal_digits(value: u8) -> Seq<u8> {
    seq![(value / 100) as u8, ((value / 10) % 10) as u8, (value % 10) as u8]
}

/// The machine after a reset.
pub open spec fn initial_state(settings: Settings) -> MachineState {
    MachineState {
        display: uniform_frame(0),
        memory: initial_memory(),
        v: Seq::new(REGISTER_COUNT as nat, |i: int| 0u8),
        stack: Seq::empty(),
        keys: Seq::new(KEY_COUNT as nat, |i: int| false),
        waiting: false,
        index: 0,
        pc: ROM_START,
        delay_timer: 0,
        sound_timer: 0,
        settings,
    }
}

impl MachineState {
    /// The state has the machine's shape: a full screen of 0 and 1, full
    /// memory, sixteen registers and keys, at most sixteen return addresses.
    pub open spec fn wf(self) -> bool {
        &&& is_frame(self.display)
        &&& self.memory.len() == RAM_SIZE
        &&& self.v.len() == REGISTER_COUNT
        &&& self.keys.len() == KEY_COUNT
        &&& self.stack.len() <= 16
    }

    /// The state with register `x` set to `value`.
    pub open spec fn with_register(self, x: u8, value: u8) -> MachineState {
        MachineState { v: self.v.update(x as int, value), ..self }
    }

    /// The state with the flag register set to 1 if `cond` holds, to 0
    /// otherwise.
    pub open spec fn with_flag(self, cond: bool) -> MachineState {
        self.with_register(FLAG_REGISTER, flag_value(cond))
    }

    /// The state with the program counter at `pc`.
    pub open spec fn with_pc(self, pc: u16) -> MachineState {
        MachineState { pc, ..self }
    }

    /// The state with the index register at `index`.
    pub open spec fn with_index(self, index: u16) -> MachineState {
        MachineState { index, ..self }
    }

    /// The program counter moves past the next instruction if `cond` holds.
    /// The counter has 16 bits and starts again at zero behind the last.
    pub open spec fn skipping(self, cond: bool) -> MachineState {
        if cond {
            self.with_pc(wrap16(self.pc + 2))
        } else {
            self
        }
    }

    /// An arithmetic instruction: the flag is set first, the result is
    /// written to register `x` after it.
    pub open spec fn with_flagged_result(self, x: u8, flag: bool, value: u8) -> MachineState {
        self.with_flag(flag).with_register(x, value)
    }

    /// The register a shift takes its operand from.
    pub open spec fn shift_operand(self, x: u8, y: u8) -> u8 {
        if self.settings.shift_quirk {
            self.v[x as int]
        } else {
            self.v[y as int]
        }
    }

    /// The register a jump with offset adds to the address: V0, or the one
    /// named by the highest digit of the 12-bit address.
    pub open spec fn jump_register(self, addr: u16) -> int {
        if self.settings.jump_quirk {
            addr as int / 0x100
        } else {
            0
        }
    }

    /// Whether an addition to the index register that gives `sum`, not yet
    /// reduced to 16 bits, sets the flag: by leaving the 12-bit address
    /// range, or else by bit 3 of the sum.
    pub open spec fn index_flag(self, sum: int) -> bool {
        if self.settings.index_overflow {
            sum > 0xFFF
        } else {
            (sum / 8) % 2 == 1
        }
    }

    /// Drawing `n` sprite rows from the index register on at the position
    /// held in registers `x` and `y`. Rows are read and drawn one by one; at
    /// the first that lies outside memory the instruction stops with what
    /// was drawn so far and the flag untouched.
    pub open spec fn drawing(self, x: u8, y: u8, n: u8) -> Outcome {
        let col = self.v[x as int] as int % 64;
        let row = self.v[y as int] as int % 32;
        let rows = bytes_in_range(self.index, n as int);
        let sprite = sprite_at(self.memory, self.index, rows);
        let shown = MachineState { display: sprite_drawn(self.display, sprite, col, row), ..self };
        if rows == n {
            (shown.with_flag(sprite_collides(self.display, sprite, col, row)), Ok(()))
        } else {
            (shown, Err(Chip8Error::MemoryOutOfRange((self.index + rows) as u16)))
        }
    }

    /// Writing `data` to memory from the index register on, byte by byte;
    /// at the first byte outside memory the instruction stops with what was
    /// written so far.
    pub open spec fn storing(self, data: Seq<u8>) -> Outcome {
        let count = bytes_in_range(self.index, data.len() as int);
        let written = MachineState {
            memory: overlay(self.memory, self.index as int, data.take(count)),
            ..self
        };
        if count == data.len() {
            (written, Ok(()))
        } else {
            (written, Err(Chip8Error::MemoryOutOfRange((self.index + count) as u16)))
        }
    }

    /// After a block store or load of registers V0 to Vx that succeeded, the
    /// index register moves behind the block if the machine is set to do so.
    pub open spec fn after_block(self, x: u8) -> MachineState {
        if self.settings.load_store_quirk {
            self.with_index((self.index + x + 1) as u16)
        } else {
            self
        }
    }

    /// Reading registers V0 to Vx from memory at the index register on, one
    /// by one; at the first byte outside memory the instruction stops with
    /// the registers read so far.
    pub open spec fn loading(self, x: u8) -> Outcome {
        let count = bytes_in_range(self.index, x + 1);
        let read = MachineState {
            v: Seq::new(
                self.v.len(),
                |i: int|
                    if i < count {
                        self.memory[self.index + i]
                    } else {
                        self.v[i]
                    },
            ),
            ..self
        };
        if count == x + 1 {
            (read.after_block(x), Ok(()))
        } else {
            (read, Err(Chip8Error::MemoryOutOfRange((self.index + count) as u16)))
        }
    }
}

/// What each instruction does to the machine. `random` is the byte that the
/// random instruction draws; no other instruction looks at it.
///
/// Where interpreters differ, this machine does the following.
/// - A system call (family 0 but for clear and return) does nothing.
/// - An arithmetic instruction sets the flag before it writes its result, so
///   a result written to the flag register itself stays there.
/// - Subtraction sets the flag to 1 when nothing was borrowed.
/// - Shifts, jump with offset, the flag of an addition to the index
///   register and the index register after a block store or load follow
///   the machine's settings.
/// - The program counter and the index register have 16 bits and wrap.
/// - The skip-on-key instructions take their operand as the number of the
///   key, and the font instruction takes its operand as the digit.
/// - A sprite starts at its coordinates modulo the screen's size, is cut
///   off at the right edge and continues at the top after the bottom row.
/// - A memory access outside memory stops the instruction and keeps what
///   the instruction did before it.
pub open spec fn executed(s: MachineState, op: OpCode, random: u8) -> Outcome {
    match op {
        OpCode::SysAddr(_) => (s, Ok(())),
        OpCode::Clear => (MachineState { display: uniform_frame(0), ..s }, Ok(())),
        OpCode::Return => match popped(s.stack) {
            Ok((top, rest)) => (MachineState { stack: rest, pc: top, ..s }, Ok(())),
            Err(e) => (s, Err(e)),
        },
        OpCode::Jump(addr) => (s.with_pc(addr), Ok(())),
        OpCode::Call(addr) => match pushed(s.stack, s.pc) {
            Ok(stack) => (MachineState { stack, pc: addr, ..s }, Ok(())),
            Err(e) => (s, Err(e)),
        },
        OpCode::SkipEqual(x, kk) => (s.skipping(s.v[x as int] == kk), Ok(())),
        OpCode::SkipNotEqual(x, kk) => (s.skipping(s.v[x as int] != kk), Ok(())),
        OpCode::SkipEqualRegister(x, y) => (s.skipping(s.v[x as int] == s.v[y as int]), Ok(())),
        OpCode::Load(x, kk) => (s.with_register(x, kk), Ok(())),
        OpCode::Add(x, kk) => (s.with_register(x, wrap8(s.v[x as int] + kk)), Ok(())),
        OpCode::LoadRegister(x, y) => (s.with_register(x, s.v[y as int]), Ok(())),
        OpCode::OrRegister(x, y) => (s.with_register(x, s.v[x as int] | s.v[y as int]), Ok(())),
        OpCode::AndRegister(x, y) => (s.with_register(x, s.v[x as int] & s.v[y as int]), Ok(())),
        OpCode::XorRegister(x, y) => (s.with_register(x, s.v[x as int] ^ s.v[y as int]), Ok(())),
        OpCode::AddRegister(x, y) => {
            let sum = s.v[x as int] + s.v[y as int];
            (s.with_flagged_result(x, sum > 0xFF, wrap8(sum)), Ok(()))
        },
        OpCode::SubRegister(x, y) => {
            let a = s.v[x as int];
            let b = s.v[y as int];
            (s.with_flagged_result(x, a >= b, wrap8(a - b)), Ok(()))
        },
        OpCode::ShiftRightRegister(x, y) => {
            let a = s.shift_operand(x, y);
            (s.with_flagged_result(x, a % 2 == 1, (a / 2) as u8), Ok(()))
        },
        OpCode::SubReverseRegister(x, y) => {
            let a = s.v[x as int];
            let b = s.v[y as int];
            (s.with_flagged_result(x, b >= a, wrap8(b - a)), Ok(()))
        },
        OpCode::ShiftLeftRegister(x, y) => {
            let a = s.shift_operand(x, y);
            (s.with_flagged_result(x, a >= 0x80, wrap8(a * 2)), Ok(()))
        },
        OpCode::SkipNotEqualRegister(x, y) => (s.skipping(s.v[x as int] != s.v[y as int]), Ok(())),
        OpCode::SetIndexRegister(addr) => (s.with_index(addr), Ok(())),
        OpCode::JumpWithOffset(addr) => (
            s.with_pc((addr + s.v[s.jump_register(addr)]) as u16),
            Ok(()),
        ),
        OpCode::Random(x, kk) => (s.with_register(x, random & kk), Ok(())),
        OpCode::Draw(x, y, n) => s.drawing(x, y, n),
        OpCode::SkipKeyPressed(x) => (s.skipping(s.keys[x as int]), Ok(())),
        OpCode::SkipKeyNotPressed(x) => (s.skipping(!s.keys[x as int]), Ok(())),
        OpCode::LoadDelay(x) => (s.with_register(x, s.delay_timer), Ok(())),
        OpCode::LoadNextKeyPress(x) => match lowest_pressed(s.keys) {
            Some(key) => (MachineState { waiting: false, ..s }.with_register(x, key), Ok(())),
            None => (MachineState { waiting: true, ..s }.with_pc(wrap16(s.pc - 2)), Ok(())),
        },
        OpCode::SetDelayTimer(x) => (MachineState { delay_timer: s.v[x as int], ..s }, Ok(())),
        OpCode::SetSoundTimer(x) => (MachineState { sound_timer: s.v[x as int], ..s }, Ok(())),
        OpCode::AddIndexRegister(x) => {
            let sum = s.index + s.v[x as int];
            (s.with_flag(s.index_flag(sum)).with_index(wrap16(sum)), Ok(()))
        },
        OpCode::IndexAtSprite(x) => match font_address(x) {
            Ok(addr) => (s.with_index(addr), Ok(())),
            Err(e) => (s, Err(e)),
        },
        OpCode::BinaryCodeConversion(x) => s.storing(decimal_digits(s.v[x as int])),
        OpCode::StoreAllRegisters(x) => {
            let (written, result) = s.storing(s.v.take(x + 1));
            if result is Ok {
                (written.after_block(x), result)
            } else {
                (written, result)
            }
        },
        OpCode::LoadAllRegisters(x) => s.loading(x),
    }
}

/// One step of the machine: the key states are taken over, the word at the
/// program counter is fetched and the counter moved past it, the word is
/// decoded and the instruction run. A failure leaves what was done before.
pub open spec fn cycled(s: MachineState, keys: Seq<bool>, random: u8) -> Outcome {
    let polled = MachineState { keys, ..s };
    match word_at(s.memory, s.pc) {
        Err(e) => (polled, Err(e)),
        Ok(word) => {
            let fetched = polled.with_pc((s.pc + 2) as u16);
            match decoded(word) {
                Err(e) => (fetched, Err(e)),
                Ok(op) => executed(fetched, op, random),
            }
        },
    }
}

/// Both timers after one tick: each goes down by one and stops at zero.
pub open spec fn ticked(s: MachineState) -> MachineState {
    MachineState {
        delay_timer: if s.delay_timer > 0 { (s.delay_timer - 1) as u8 } else { 0 },
        sound_timer: if s.sound_timer > 0 { (s.sound_timer - 1) as u8 } else { 0 },
        ..s
    }
}

/// Reducing a sum or a difference of two bytes to a byte adds or takes away
/// 256 at most once.
proof fn lemma_wrap8(a: u8, b: u8)
    ensures
        wrap8(a + b) == if a + b > 0xFF {
            a + b - 0x100
        } else {
            a + b
        },
        wrap8(a - b) == if a < b {
            a - b + 0x100
        } else {
            a - b
        },
{
}

/// Draws a byte from the thread's generator of `rand`, by `thread_rng` and
/// `Rng::gen`. Nothing is claimed of the byte.
#[verifier::external_body]
fn generate_random_byte() -> (byte: u8) {
    rand::Rng::gen::<u8>(&mut rand::thread_rng())
}

impl Chip8 {
    /// The machine as plain values.
    pub open spec fn view(&self) -> MachineState {
        MachineState {
            display: self.display@,
            memory: self.memory@,
            v: self.v@,
            stack: self.stack@,
            keys: self.input@,
            waiting: self.input.waiting(),
            index: self.index,
            pc: self.program_counter,
            delay_timer: self.delay_timer,
            sound_timer: self.sound_timer,
            settings: self.settings,
        }
    }

    /// A machine after a reset, with the usual settings.
    pub fn new() -> (chip: Self)
        ensures
            chip@ == initial_state(default_settings()),
            chip@.wf(),
    {
        Self::with_settings(Settings::new())
    }

    /// A machine after a reset: font in memory, everything else zero, the
    /// program counter at the load address.
    pub fn with_settings(settings: Settings) -> (chip: Self)
        ensures
            chip@ == initial_state(settings),
            chip@.wf(),
    {
        Self {
            display: Display::new(),
            memory: Memory::new(),
            v: Registers::new(),
            stack: Stack::new(),
            input: Keyboard::new(),
            settings,
            index: 0,
            program_counter: 0x200,
            delay_timer: 0,
            sound_timer: 0,
        }
    }

    /// Shows that the state of a machine always has the machine's shape. Does
    /// nothing when run.
    pub fn check_shape(&self)
        ensures
            self@.wf(),
    {
        proof {
            self.memory.lemma_len();
            self.v.lemma_len();
            self.input.lemma_len();
        }
        let _ = self.display.get_frame_buffer();
        self.stack.check_depth();
    }

    /// Copies a program into memory at the load address.
    pub fn load_rom(&mut self, rom: &[u8]) -> (r: Result<(), Chip8Error>)
        ensures
            match rom_loaded(old(self)@.memory, rom@) {
                Ok(mem) => r == Ok::<(), Chip8Error>(()) && final(self)@ == (MachineState {
                    memory: mem,
                    ..old(self)@
                }),
                Err(e) => r == Err::<(), Chip8Error>(e) && final(self)@ == old(self)@,
            },
            final(self)@.wf(),
    {
        let r = self.memory.load_rom(rom);
        self.check_shape();
        r
    }

    /// The pixels, for a renderer to read.
    pub fn get_frame_buffer(&self) -> (buffer: &FrameBuffer)
        ensures
            is_frame(self@.display),
            buffer@.len() == 32,
            forall|r: int| 0 <= r < 32 ==> (#[trigger] buffer@[r])@ == self@.display[r],
    {
        self.display.get_frame_buffer()
    }

    /// Whether the tone should sound: the sound timer has not run out.
    pub fn is_beeping(&self) -> (on: bool)
        ensures
            on == (self@.sound_timer > 0),
    {
        self.sound_timer > 0
    }

    /// One tick of the timer clock.
    pub fn tick_timers(&mut self)
        ensures
            final(self)@ == ticked(old(self)@),
            final(self)@.wf(),
    {
        self.check_shape();
        if self.delay_timer > 0 {
            self.delay_timer -= 1;
        }
        if self.sound_timer > 0 {
            self.sound_timer -= 1;
        }
    }

    /// One step with the key states `keys`. The random instruction draws
    /// its byte from the thread's generator, so the step is one of those
    /// that `cycled` describes.
    pub fn cycle(&mut self, keys: [bool; 16]) -> (r: Result<(), Chip8Error>)
        ensures
            exists|random: u8| (final(self)@, r) == #[trigger] cycled(old(self)@, keys@, random),
            final(self)@.wf(),
    {
        self.input.set_keys(keys);
        self.check_shape();
        let word = match self.fetch() {
            Ok(word) => word,
            Err(e) => {
                assert((self@, Err::<(), Chip8Error>(e)) == cycled(old(self)@, keys@, 0));
                return Err(e);
            },
        };
        let op = match Self::decode(word) {
            Ok(op) => op,
            Err(e) => {
                assert((self@, Err::<(), Chip8Error>(e)) == cycled(old(self)@, keys@, 0));
                return Err(e);
            },
        };
        let ghost fetched = self@;
        let r = self.execute(op);
        proof {
            let random = choose|random: u8| (self@, r) == #[trigger] executed(fetched, op, random);
            assert((self@, r) == cycled(old(self)@, keys@, random));
        }
        r
    }

    /// Reads the word at the program counter and moves the counter past it.
    pub fn fetch(&mut self) -> (r: Result<u16, Chip8Error>)
        ensures
            match word_at(old(self)@.memory, old(self)@.pc) {
                Ok(word) => r == Ok::<u16, Chip8Error>(word) && final(self)@ == old(self)@.with_pc(
                    (old(self)@.pc + 2) as u16,
                ),
                Err(e) => r == Err::<u16, Chip8Error>(e) && final(self)@ == old(self)@,
            },
    {
        let next_instr = self.memory.get_word(self.program_counter)?;
        self.program_counter += 2;
        Ok(next_instr)
    }

    /// Decodes an instruction word.
    pub fn decode(op: u16) -> (r: Result<OpCode, Chip8Error>)
        ensures
            r == decoded(op),
            r matches Ok(code) ==> code.wf(),
    {
        OpCode::decode(op)
    }

    /// Runs one instruction. The random instruction draws its byte from the
    /// thread's generator, so the outcome is one of those that `executed`
    /// describes; every other instruction has the one outcome.
    pub fn execute(&mut self, op: OpCode) -> (r: Result<(), Chip8Error>)
        requires
            op.wf(),
        ensures
            exists|random: u8| (final(self)@, r) == #[trigger] executed(old(self)@, op, random),
            !(op is Random) ==> (final(self)@, r) == executed(old(self)@, op, 0),
            final(self)@.wf(),
    {
        let random: u8 = match op {
            OpCode::Random(_, _) => generate_random_byte(),
            _ => 0,
        };
        self.execute_with(op, random)
    }

    fn set_vf(&mut self, cond: bool)
        ensures
            final(self)@ == old(self)@.with_flag(cond),
    {
        *self.v.index_mut(0xf) = if cond { 1 } else { 0 };
    }

    fn set_register(&mut self, x: u8, value: u8)
        requires
            x < 16,
        ensures
            final(self)@ == old(self)@.with_register(x, value),
    {
        *self.v.index_mut(x) = value;
    }

    fn set_flagged_result(&mut self, x: u8, flag: bool, value: u8)
        requires
            x < 16,
        ensures
            final(self)@ == old(self)@.with_flagged_result(x, flag, value),
    {
        self.set_vf(flag);
        *self.v.index_mut(x) = value;
    }

    fn skip_if(&mut self, cond: bool)
        ensures
            final(self)@ == old(self)@.skipping(cond),
    {
        if cond {
            self.program_counter = self.program_counter.wrapping_add(2);
        }
    }

    /// Runs one instruction, with `random` as the byte that the random
    /// instruction draws.
    pub fn execute_with(&mut self, op: OpCode, random: u8) -> (r: Result<(), Chip8Error>)
        requires
            op.wf(),
        ensures
            (final(self)@, r) == executed(old(self)@, op, random),
            final(self)@.wf(),
    {
        let r = match op {
            OpCode::SysAddr(_)
            | OpCode::Clear
            | OpCode::Return
            | OpCode::Jump(_)
            | OpCode::Call(_)
            | OpCode::SkipEqual(_, _)
            | OpCode::SkipNotEqual(_, _)
            | OpCode::SkipEqualRegister(_, _)
            | OpCode::SkipNotEqualRegister(_, _)
            | OpCode::JumpWithOffset(_)
            | OpCode::SkipKeyPressed(_)
            | OpCode::SkipKeyNotPressed(_) => self.run_control(op),
            OpCode::Load(_, _)
            | OpCode::Add(_, _)
            | OpCode::LoadRegister(_, _)
            | OpCode::OrRegister(_, _)
            | OpCode::AndRegister(_, _)
            | OpCode::XorRegister(_, _)
            | OpCode::AddRegister(_, _)
            | OpCode::SubRegister(_, _)
            | OpCode::ShiftRightRegister(_, _)
            | OpCode::SubReverseRegister(_, _)
            | OpCode::ShiftLeftRegister(_, _)
            | OpCode::Random(_, _) => self.run_arithmetic(op, random),
            OpCode::SetIndexRegister(_)
            | OpCode::Draw(_, _, _)
            | OpCode::LoadDelay(_)
            | OpCode::LoadNextKeyPress(_)
            | OpCode::SetDelayTimer(_)
            | OpCode::SetSoundTimer(_)
            | OpCode::AddIndexRegister(_)
            | OpCode::IndexAtSprite(_)
            | OpCode::BinaryCodeConversion(_)
            | OpCode::StoreAllRegisters(_)
            | OpCode::LoadAllRegisters(_) => self.run_memory(op),
        };
        self.check_shape();
        r
    }

    /// The instructions that only move the program counter, the call stack
    /// or the screen as a whole.
    fn run_control(&mut self, op: OpCode) -> (r: Result<(), Chip8Error>)
        requires
            op.wf(),
            op.is_control(),
        ensures
            (final(self)@, r) == executed(old(self)@, op, 0),
    {
        proof {
            self.v.lemma_len();
            self.input.lemma_len();
        }
        match op {
            OpCode::SysAddr(_addr) => {},
            OpCode::Clear => {
                self.display.clear();
            },
            OpCode::Return => {
                let pc = self.stack.pop()?;
                self.program_counter = pc;
            },
            OpCode::Jump(addr) => {
                self.program_counter = addr;
            },
            OpCode::Call(addr) => {
                let to_return = self.program_counter;
                self.stack.push(to_return)?;
                self.program_counter = addr;
            },
            OpCode::SkipEqual(x, kk) => {
                let skip = *self.v.index(x) == kk;
                self.skip_if(skip);
            },
            OpCode::SkipNotEqual(x, kk) => {
                let skip = *self.v.index(x) != kk;
                self.skip_if(skip);
            },
            OpCode::SkipEqualRegister(x, y) => {
                let skip = *self.v.index(x) == *self.v.index(y);
                self.skip_if(skip);
            },
            OpCode::SkipNotEqualRegister(x, y) => {
                let skip = *self.v.index(x) != *self.v.index(y);
                self.skip_if(skip);
            },
            OpCode::JumpWithOffset(addr) => {
                let register: u8 = if self.settings.jump_quirk {
                    (addr / 0x100) as u8
                } else {
                    0
                };
                self.program_counter = addr + *self.v.index(register) as u16;
            },
            OpCode::SkipKeyPressed(x) => {
                let skip = self.input.is_key_pressed(x);
                self.skip_if(skip);
            },
            OpCode::SkipKeyNotPressed(x) => {
                let skip = !self.input.is_key_pressed(x);
                self.skip_if(skip);
            },
            _ => {},
        }
        Ok(())
    }

    /// The instructions that compute a general register.
    fn run_arithmetic(&mut self, op: OpCode, random: u8) -> (r: Result<(), Chip8Error>)
        requires
            op.wf(),
            op.is_arithmetic(),
        ensures
            (final(self)@, r) == executed(old(self)@, op, random),
    {
        proof {
            self.v.lemma_len();
            self.input.lemma_len();
        }
        match op {
            OpCode::Load(x, kk) => {
                self.set_register(x, kk);
            },
            OpCode::Add(x, kk) => {
                let a = *self.v.index(x);
                proof {
                    lemma_wrap8(a, kk);
                }
                self.set_register(x, a.wrapping_add(kk));
            },
            OpCode::LoadRegister(x, y) => {
                let value = *self.v.index(y);
                self.set_register(x, value);
            },
            OpCode::OrRegister(x, y) => {
                let value = *self.v.index(x) | *self.v.index(y);
                self.set_register(x, value);
            },
            OpCode::AndRegister(x, y) => {
                let value = *self.v.index(x) & *self.v.index(y);
                self.set_register(x, value);
            },
            OpCode::XorRegister(x, y) => {
                let value = *self.v.index(x) ^ *self.v.index(y);
                self.set_register(x, value);
            },
            OpCode::AddRegister(x, y) => {
                let a = *self.v.index(x);
                let b = *self.v.index(y);
                let over = a > 0xFF - b;
                proof {
                    lemma_wrap8(a, b);
                }
                self.set_flagged_result(x, over, a.wrapping_add(b));
            },
            OpCode::SubRegister(x, y) => {
                let a = *self.v.index(x);
                let b = *self.v.index(y);
                let under = a < b;
                proof {
                    lemma_wrap8(a, b);
                }
                self.set_flagged_result(x, !under, a.wrapping_sub(b));
            },
            OpCode::ShiftRightRegister(x, y) => {
                let a = self.shift_operand(x, y);
                let shifted_bit = a & 0x1;
                assert((a & 0x1 == 0x1) == (a % 2 == 1) && a >> 1 == a / 2) by (bit_vector);
                self.set_flagged_result(x, shifted_bit == 0x1, a >> 1);
            },
            OpCode::SubReverseRegister(x, y) => {
                let a = *self.v.index(x);
                let b = *self.v.index(y);
                let under = b < a;
                proof {
                    lemma_wrap8(b, a);
                }
                self.set_flagged_result(x, !under, b.wrapping_sub(a));
            },
            OpCode::ShiftLeftRegister(x, y) => {
                let a = self.shift_operand(x, y);
                let bit = a & 0x80;
                assert((a & 0x80 == 0x80) == (a >= 0x80) && a << 1 == (a * 2) % 0x100) by (bit_vector);
                self.set_flagged_result(x, bit == 0x80, a << 1);
            },
            OpCode::Random(x, kk) => {
                self.set_register(x, random & kk);
            },
            _ => {},
        }
        Ok(())
    }

    /// The instructions on the index register, memory, the timers, sprites
    /// and the awaited key.
    fn run_memory(&mut self, op: OpCode) -> (r: Result<(), Chip8Error>)
        requires
            op.wf(),
            op.is_memory(),
        ensures
            (final(self)@, r) == executed(old(self)@, op, 0),
    {
        proof {
            self.v.lemma_len();
            self.input.lemma_len();
        }
        match op {
            OpCode::SetIndexRegister(addr) => {
                self.index = addr;
            },
            OpCode::Draw(x, y, n) => {
                return self.draw(x, y, n);
            },
            OpCode::LoadDelay(x) => {
                let value = self.delay_timer;
                self.set_register(x, value);
            },
            OpCode::LoadNextKeyPress(x) => {
                if let Some(key) = self.input.get_next_key() {
                    self.set_register(x, key);
                } else {
                    self.program_counter = self.program_counter.wrapping_sub(2);
                }
            },
            OpCode::SetDelayTimer(x) => {
                self.delay_timer = *self.v.index(x);
            },
            OpCode::SetSoundTimer(x) => {
                self.sound_timer = *self.v.index(x);
            },
            OpCode::AddIndexRegister(x) => {
                let sum: u32 = self.index as u32 + *self.v.index(x) as u32;
                let flag = if self.settings.index_overflow {
                    sum > 0xFFF
                } else {
                    assert((sum & 0x8 == 0x8) == ((sum / 8) % 2 == 1)) by (bit_vector);
                    sum & 0x8 == 0x8
                };
                self.set_vf(flag);
                self.index = (sum % 0x1_0000) as u16;
            },
            OpCode::IndexAtSprite(x) => {
                self.index = Memory::index_of_font_char(x)?;
            },
            OpCode::BinaryCodeConversion(x) => {
                let value = *self.v.index(x);
                return self.store_digits(value);
            },
            OpCode::StoreAllRegisters(x) => {
                return self.store_registers(x);
            },
            OpCode::LoadAllRegisters(x) => {
                return self.load_registers(x);
            },
            _ => {},
        }
        Ok(())
    }

    fn shift_operand(&self, x: u8, y: u8) -> (a: u8)
        requires
            x < 16,
            y < 16,
        ensures
            a == self@.shift_operand(x, y),
    {
        if self.settings.shift_quirk {
            *self.v.index(x)
        } else {
            *self.v.index(y)
        }
    }

    /// The draw instruction: `n` sprite rows from the index register on,
    /// at the position held in registers `x` and `y`.
    fn draw(&mut self, x: u8, y: u8, n: u8) -> (r: Result<(), Chip8Error>)
        requires
            x < 16,
            y < 16,
            n < 16,
        ensures
            (final(self)@, r) == old(self)@.drawing(x, y, n),
    {
        let col: u8 = *self.v.index(x) % 64;
        let row: u8 = *self.v.index(y) % 32;
        let mut pixel_changed = false;
        let mut sy: u8 = 0;
        proof {
            self.memory.lemma_len();
            self.v.lemma_len();
        }
        while sy < n
            invariant
                sy <= n < 16,
                col == old(self)@.v[x as int] % 64,
                row == old(self)@.v[y as int] % 32,
                sy > 0 ==> self.index + sy <= RAM_SIZE,
                self@.memory.len() == RAM_SIZE,
                self@ == (MachineState { display: self@.display, ..old(self)@ }),
                self@.display == sprite_drawn(
                    old(self)@.display,
                    sprite_at(old(self)@.memory, old(self)@.index, sy as int),
                    col as int,
                    row as int,
                ),
                pixel_changed == sprite_collides(
                    old(self)@.display,
                    sprite_at(old(self)@.memory, old(self)@.index, sy as int),
                    col as int,
                    row as int,
                ),
            decreases n - sy,
        {
            let byte: u8 = match self.memory.get_byte(self.index + sy as u16) {
                Ok(byte) => *byte,
                Err(e) => {
                    assert(bytes_in_range(self.index, n as int) == sy);
                    return Err(e);
                },
            };
            let ghost sprite = sprite_at(old(self)@.memory, old(self)@.index, sy as int + 1);
            assert(sprite.drop_last() == sprite_at(
                old(self)@.memory,
                old(self)@.index,
                sy as int,
            ));
            assert(sprite.last() == byte);
            let erased = self.display.draw_byte(byte, col as usize, (row + sy) as usize);
            pixel_changed = pixel_changed || erased;
            sy += 1;
        }
        assert(bytes_in_range(self.index, n as int) == n);
        self.set_vf(pixel_changed);
        Ok(())
    }

    /// The decimal conversion: the three digits of `value` go to memory
    /// from the index register on.
    fn store_digits(&mut self, value: u8) -> (r: Result<(), Chip8Error>)
        ensures
            (final(self)@, r) == old(self)@.storing(decimal_digits(value)),
    {
        let digits: [u8; 3] = [value / 100, (value / 10) % 10, value % 10];
        assert(digits@ == decimal_digits(value));
        let mut i: u8 = 0;
        proof {
            self.memory.lemma_len();
        }
        while i < 3
            invariant
                i <= 3,
                digits@ == decimal_digits(value),
                i > 0 ==> self.index + i <= RAM_SIZE,
                self@.memory.len() == RAM_SIZE,
                self@ == (MachineState {
                    memory: overlay(old(self)@.memory, self.index as int, digits@.take(i as int)),
                    ..old(self)@
                }),
            decreases 3 - i,
        {
            match self.memory.get_byte_mut(self.index + i as u16) {
                Ok(slot) => {
                    *slot = digits[i as usize];
                },
                Err(e) => {
                    assert(bytes_in_range(self.index, 3) == i);
                    return Err(e);
                },
            }
            assert(self@.memory == overlay(
                old(self)@.memory,
                self.index as int,
                digits@.take(i as int + 1),
            ));
            i += 1;
        }
        assert(bytes_in_range(self.index, 3) == 3);
        assert(digits@.take(3) == digits@);
        Ok(())
    }

    /// The block store: registers V0 to Vx go to memory from the index
    /// register on.
    fn store_registers(&mut self, x: u8) -> (r: Result<(), Chip8Error>)
        requires
            x < 16,
        ensures
            (final(self)@, r) == executed(old(self)@, OpCode::StoreAllRegisters(x), 0),
    {
        let mut offset: u8 = 0;
        proof {
            self.memory.lemma_len();
            self.v.lemma_len();
        }
        let ghost data = self@.v.take(x + 1);
        while offset <= x
            invariant
                offset <= x + 1,
                x < 16,
                data == old(self)@.v.take(x + 1),
                old(self)@.v.len() == REGISTER_COUNT,
                offset > 0 ==> self.index + offset <= RAM_SIZE,
                self@.memory.len() == RAM_SIZE,
                self@ == (MachineState {
                    memory: overlay(old(self)@.memory, self.index as int, data.take(offset as int)),
                    ..old(self)@
                }),
            decreases x + 1 - offset,
        {
            let value: u8 = *self.v.index(offset);
            match self.memory.get_byte_mut(self.index + offset as u16) {
                Ok(slot) => {
                    *slot = value;
                },
                Err(e) => {
                    assert(bytes_in_range(self.index, x + 1) == offset);
                    return Err(e);
                },
            }
            assert(self@.memory == overlay(
                old(self)@.memory,
                self.index as int,
                data.take(offset as int + 1),
            ));
            offset += 1;
        }
        assert(bytes_in_range(self.index, x + 1) == x + 1);
        assert(data.take(x + 1) == data);
        if self.settings.load_store_quirk {
            self.index = self.index + x as u16 + 1;
        }
        Ok(())
    }

    /// The block load: registers V0 to Vx are read from memory at the index
    /// register on.
    fn load_registers(&mut self, x: u8) -> (r: Result<(), Chip8Error>)
        requires
            x < 16,
        ensures
            (final(self)@, r) == old(self)@.loading(x),
    {
        let mut offset: u8 = 0;
        proof {
            self.memory.lemma_len();
            self.v.lemma_len();
        }
        while offset <= x
            invariant
                offset <= x + 1,
                x < 16,
                old(self)@.v.len() == REGISTER_COUNT,
                offset > 0 ==> self.index + offset <= RAM_SIZE,
                self@.memory.len() == RAM_SIZE,
                self@ == (MachineState {
                    v: Seq::new(
                        REGISTER_COUNT as nat,
                        |i: int|
                            if i < offset {
                                old(self)@.memory[old(self)@.index + i]
                            } else {
                                old(self)@.v[i]
                            },
                    ),
                    ..old(self)@
                }),
            decreases x + 1 - offset,
        {
            let value: u8 = match self.memory.get_byte(self.index + offset as u16) {
                Ok(byte) => *byte,
                Err(e) => {
                    assert(bytes_in_range(self.index, x + 1) == offset);
                    return Err(e);
                },
            };
            *self.v.index_mut(offset) = value;
            offset += 1;
        }
        assert(bytes_in_range(self.index, x + 1) == x + 1);
        if self.settings.load_store_quirk {
            self.index = self.index + x as u16 + 1;
        }
        Ok(())
    }
}

} // verus!
