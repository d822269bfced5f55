use vstd::prelude::*;

verus! {

/// What differs between the historical variants of the machine, and the
/// rates at which a driver runs it.
#[derive(Debug, Clone, Copy, PartialEq, Eq, Structural)]
pub struct Settings {
    /// Address at which programs are loaded and start.
    pub rom_addr: u16,
    /// Instructions per second.
    pub cpu_freq: u16,
    /// Ticks of the delay timer per second.
    pub delay_freq: u16,
    /// Ticks of the sound timer per second.
    pub sound_freq: u16,
    /// Storing or loading registers V0 to Vx leaves the index register
    /// behind the last byte used (the early behaviour) instead of
    /// untouched.
    pub load_store_quirk: bool,
    /// A shift works on Vx alone (the later behaviour) instead of on a copy
    /// of Vy.
    pub shift_quirk: bool,
    /// Adding to the index register sets the flag when the sum leaves the
    /// 12-bit address range, instead of from bit 3 of the sum.
    pub index_overflow: bool,
    /// Whether a sprite that crosses the bottom edge is wanted to continue
    /// at the top. Recorded for drivers: the draw instruction continues at
    /// the top in either case.
    pub vertical_wrap: bool,
    /// A jump with offset adds the register named by the highest digit of
    /// the address (the later behaviour) instead of V0.
    pub jump_quirk: bool,
}

/// The usual rates and the behaviour of current interpreters.
pub open spec fn default_settings() -> Settings {
    Settings {
        rom_addr: 0x200,
        cpu_freq: 700,
        delay_freq: 60,
        sound_freq: 60,
        load_store_quirk: false,
        shift_quirk: true,
        index_overflow: false,
        vertical_wrap: false,
        jump_quirk: false,
    }
}

impl Settings {
    /// The usual rates and the behaviour of current interpreters.
    pub fn new() -> (s: Self)
        ensures
            s == default_settings(),
    {
        Self {
            rom_addr: 0x200,
            cpu_freq: 700,
            delay_freq: 60,
            sound_freq: 60,
            load_store_quirk: false,
            index_overflow: false,
            vertical_wrap: false,
            shift_quirk: true,
            jump_quirk: false,
        }
    }
}

} // verus!
