//! The bus: memory, screen and keyboard, lent together to the processor.

use vstd::prelude::*;

use crate::display::{collides, drawn, FrameBuffer, FRAME_HEIGHT};
use crate::input::Keyboard;
use crate::memory::{merge_bytes, word_of, MainMemory, Memory};
use crate::specs::{Address, Byte, Instruction, MEMORY_SIZE};

verus! {

/// `ram` with `bytes` written from `address` on.
pub open spec fn overwritten(ram: Seq<u8>, address: int, bytes: Seq<u8>) -> Seq<u8> {
    Seq::new(
        ram.len(),
        |i: int|
            if address <= i < address + bytes.len() {
                bytes[i - address]
            } else {
                ram[i]
            },
    )
}

/// What the bus holds: memory, screen rows and the latched key.
pub struct BusView {
    pub ram: Seq<u8>,
    pub screen: Seq<u64>,
    pub key: Option<u8>,
}

/// The peripherals of the machine.
pub struct Bus {
    memory: MainMemory,
    frame_buffer: FrameBuffer,
    keyboard: Keyboard,
}

impl View for Bus {
    type V = BusView;

    closed spec fn view(&self) -> BusView {
        BusView { ram: self.ram(), screen: self.screen(), key: self.key() }
    }
}

impl Bus {
    /// What main memory holds.
    pub closed spec fn ram(&self) -> Seq<u8> {
        self.memory@
    }

    /// The rows of the screen.
    pub closed spec fn screen(&self) -> Seq<u64> {
        self.frame_buffer@
    }

    /// The latched key.
    pub closed spec fn key(&self) -> Option<u8> {
        self.keyboard@
    }

    /// Memory has `MEMORY_SIZE` bytes and the screen `FRAME_HEIGHT` rows.
    pub proof fn lemma_sizes(&self)
        ensures
            self.ram().len() == MEMORY_SIZE,
            self.screen().len() == FRAME_HEIGHT,
            self@ == (BusView { ram: self.ram(), screen: self.screen(), key: self.key() }),
    {
        self.memory.lemma_size();
        self.frame_buffer.lemma_size();
    }

    /// A bus over `memory`, with a dark screen and no key pressed.
    pub fn new(memory: MainMemory) -> (r: Self)
        ensures
            r.ram() == memory@,
            r.screen() == Seq::new(FRAME_HEIGHT as nat, |i: int| 0u64),
            r.key() == None::<u8>,
    {
        Bus { memory, frame_buffer: FrameBuffer::new(), keyboard: Keyboard::new() }
    }

    /// The big-endian word at `address`.
    pub fn read_instruction(&self, address: Address) -> (r: Instruction)
        requires
            address + 1 < MEMORY_SIZE,
        ensures
            r == word_of(self.ram()[address as int], self.ram()[address + 1]),
    {
        let left = self.memory.read(address);
        let right = self.memory.read(address + 1);
        merge_bytes(left, right)
    }

    /// The `offset` bytes that start at `address`.
    pub fn read_bytes(&self, address: Address, offset: Address) -> (r: Vec<Byte>)
        requires
            address + offset <= MEMORY_SIZE,
        ensures
            r@ == self.ram().subrange(address as int, address + offset),
    {
        self.memory.read_bytes(address, offset)
    }

    /// Writes `bytes` to memory from `address` on.
    pub fn write_bytes(&mut self, address: Address, bytes: &[Byte])
        requires
            address + bytes@.len() <= MEMORY_SIZE,
        ensures
            final(self).ram() == overwritten(old(self).ram(), address as int, bytes@),
            final(self).screen() == old(self).screen(),
            final(self).key() == old(self).key(),
    {
        let n = bytes.len();
        let mut i: usize = 0;
        proof {
            self.memory.lemma_size();
        }
        while i < n
            invariant
                n == bytes@.len(),
                address + n <= MEMORY_SIZE,
                i <= n,
                self.memory@.len() == MEMORY_SIZE,
                self.ram() == overwritten(old(self).ram(), address as int, bytes@.subrange(0, i as int)),
                self.screen() == old(self).screen(),
                self.key() == old(self).key(),
            decreases n - i,
        {
            self.memory.write(address + i as u16, bytes[i]);
            i = i + 1;
            assert(self.ram() =~= overwritten(old(self).ram(), address as int, bytes@.subrange(0, i as int)));
        }
        assert(bytes@.subrange(0, n as int) =~= bytes@);
    }

    /// Turns every pixel off.
    pub fn clear_screen(&mut self)
        ensures
            final(self).screen() == Seq::new(FRAME_HEIGHT as nat, |i: int| 0u64),
            final(self).ram() == old(self).ram(),
            final(self).key() == old(self).key(),
    {
        self.frame_buffer.clear_screen();
    }

    /// Latches `key`, or no key.
    pub fn press_key(&mut self, key: Option<u8>)
        ensures
            final(self).key() == key,
            final(self).ram() == old(self).ram(),
            final(self).screen() == old(self).screen(),
    {
        self.keyboard.set_key_pressed(key);
    }

    /// The latched key.
    pub fn get_key_pressed(&self) -> (r: Option<u8>)
        ensures
            r == self.key(),
    {
        self.keyboard.get_key_pressed()
    }

    /// Draws `sprite` at `pos` (see `FrameBuffer::write_bytes`) and tells whether a
    /// lit pixel was turned off.
    pub fn display_sprite(&mut self, pos: (usize, usize), sprite: &[u8]) -> (erased: bool)
        ensures
            final(self).screen() == drawn(old(self).screen(), (pos.0 % 64) as u64, pos.1 as int, sprite@),
            erased == collides(old(self).screen(), (pos.0 % 64) as u64, pos.1 as int, sprite@),
            final(self).ram() == old(self).ram(),
            final(self).key() == old(self).key(),
    {
        self.frame_buffer.write_bytes(pos, sprite)
    }

    /// The screen.
    pub fn get_frame_buffer(&self) -> (r: &FrameBuffer)
        ensures
            r@ == self.screen(),
    {
        &self.frame_buffer
    }

    /// Main memory.
    pub fn get_ram(&self) -> (r: &MainMemory)
        ensures
            r@ == self.ram(),
    {
        &self.memory
    }
}

} // verus!
