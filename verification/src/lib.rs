//! An interpreter core for the CHIP-8 virtual machine: instruction decoding,
//! memory, registers, call stack, display, keypad and the machine that ties
//! them together, each with a machine-checked contract.

pub mod error;
pub mod stack;
pub mod opcode;
pub mod memory;
pub mod register;
pub mod display;
pub mod keyboard;
pub mod settings;
pub mod chip;
pub mod clock;
pub mod laws;
