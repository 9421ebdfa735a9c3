//! A CHIP-8 virtual machine toolkit: memory, display, keyboard, bus,
//! instruction decoding and execution, a disassembler and an assembler.

pub mod specs;
pub mod memory;
pub mod display;
pub mod input;
pub mod bus;
pub mod instruction;
pub mod text;
pub mod assembler;
pub mod debugger;
pub mod pacing;
pub mod context;
pub mod watcher;
pub mod cpu;
