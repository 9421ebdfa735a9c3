//! The keyboard latch: at most one key is considered pressed.

use vstd::prelude::*;

verus! {

/// The key currently held down, if any.
pub struct Keyboard {
    key_pressed: Option<u8>,
}

impl View for Keyboard {
    type V = Option<u8>;

    closed spec fn view(&self) -> Option<u8> {
        self.key_pressed
    }
}

impl Keyboard {
    /// A latch with no key.
    pub fn new() -> (r: Self)
        ensures
            r@ == None::<u8>,
    {
        Keyboard { key_pressed: None }
    }

    /// Replaces the latched key.
    pub fn set_key_pressed(&mut self, key: Option<u8>)
        ensures
            final(self)@ == key,
    {
        self.key_pressed = key;
    }

    /// The latched key.
    pub fn get_key_pressed(&self) -> (r: Option<u8>)
        ensures
            r == self@,
    {
        self.key_pressed
    }
}

} // verus!
