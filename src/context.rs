//! A driver of the machine: something built from a program image that runs it.

use vstd::prelude::*;

use crate::memory::ROM;

verus! {

/// A driver that owns a machine loaded with a program and runs it until told to
/// stop.
pub trait Context: Sized {
    fn new(rom: ROM) -> Self;

    fn run(&mut self);
}

} // verus!
