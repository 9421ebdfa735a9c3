//! What a running machine can report to an observer.

use vstd::prelude::*;

use crate::instruction::InstructionData;
use crate::specs::{Address, Byte, Nibble};

verus! {

/// Whether execution is reported as it goes.
pub struct Watcher {
    pub verbose: bool,
}

/// One report on execution.
#[derive(Debug, Clone, Copy)]
pub enum Message {
    Execute { instr: InstructionData, new_pc: Address },
    RegisterChange { id: Nibble, old: Byte, new: Byte },
}

impl Watcher {
    /// An observer that stays silent.
    pub fn new() -> (r: Self)
        ensures
            !r.verbose,
    {
        Watcher { verbose: false }
    }
}

} // verus!
