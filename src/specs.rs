//! Fixed sizes and the plain types that the machine is built from.

use vstd::prelude::*;

verus! {

/// Bytes of main memory.
pub const MEMORY_SIZE: usize = 4096;

/// Return addresses that the call stack can hold.
pub const STACK_SIZE: usize = 16;

/// General registers `V0` to `VF`.
pub const REGISTERS_COUNT: usize = 16;

/// Where programs are loaded, and where execution starts.
pub const PROGRAM_BEGIN: usize = 0x200;

/// The largest program that fits between `PROGRAM_BEGIN` and the end of memory.
pub const MAX_ROM_SIZE: usize = 3584;

pub type Nibble = u8;

pub type Byte = u8;

pub type Instruction = u16;

pub type Address = u16;

pub type Register<T> = T;

} // verus!
