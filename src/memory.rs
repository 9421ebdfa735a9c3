//! Main memory, the built-in font, and program images.

use vstd::prelude::*;

use crate::specs::{Address, Byte, MAX_ROM_SIZE, MEMORY_SIZE, PROGRAM_BEGIN};

verus! {

/// Storage that maps addresses to values.
pub trait Memory: Sized {
    type Address;

    type Value;

    /// Whether `address` designates a cell of this storage.
    spec fn valid_address(&self, address: Self::Address) -> bool;

    /// What the cell at `address` holds.
    spec fn value_at(&self, address: Self::Address) -> Self::Value;

    /// Whether `after` is this storage once `value` has been written at `address`.
    spec fn written(&self, address: Self::Address, value: Self::Value, after: Self) -> bool;

    fn read(&self, address: Self::Address) -> (r: Self::Value)
        requires
            self.valid_address(address),
        ensures
            r == self.value_at(address),
    ;

    fn write(&mut self, address: Self::Address, value: Self::Value)
        requires
            old(self).valid_address(address),
        ensures
            old(self).written(address, value, *final(self)),
    ;
}

/// The sixteen hexadecimal glyphs, five rows each, most significant bit leftmost.
pub open spec fn fontset() -> Seq<u8> {
    seq![
        0xF0u8, 0x90, 0x90, 0x90, 0xF0, // 0
        0x20, 0x60, 0x20, 0x20, 0x70, // 1
        0xF0, 0x10, 0xF0, 0x80, 0xF0, // 2
        0xF0, 0x10, 0xF0, 0x10, 0xF0, // 3
        0x90, 0x90, 0xF0, 0x10, 0x10, // 4
        0xF0, 0x80, 0xF0, 0x10, 0xF0, // 5
        0xF0, 0x80, 0xF0, 0x90, 0xF0, // 6
        0xF0, 0x10, 0x20, 0x40, 0x40, // 7
        0xF0, 0x90, 0xF0, 0x90, 0xF0, // 8
        0xF0, 0x90, 0xF0, 0x10, 0xF0, // 9
        0xF0, 0x90, 0xF0, 0x90, 0x90, // A
        0xE0, 0x90, 0xE0, 0x90, 0xE0, // B
        0xF0, 0x80, 0x80, 0x80, 0xF0, // C
        0xE0, 0x90, 0x90, 0x90, 0xE0, // D
        0xF0, 0x80, 0xF0, 0x80, 0xF0, // E
        0xF0, 0x80, 0xF0, 0x80, 0x80, // F
    ]
}

/// The big-endian word made of a high and a low byte.
pub open spec fn word_of(left: u8, right: u8) -> u16 {
    (left as int * 256 + right as int) as u16
}

/// The 4 KiB random-access memory of the machine.
pub struct MainMemory {
    mem: [Byte; MEMORY_SIZE],
}

impl View for MainMemory {
    type V = Seq<u8>;

    closed spec fn view(&self) -> Seq<u8> {
        self.mem@
    }
}

/// A program image, as read from a file.
pub struct ROM {
    data: Vec<Byte>,
}

impl View for ROM {
    type V = Seq<u8>;

    closed spec fn view(&self) -> Seq<u8> {
        self.data@
    }
}

impl MainMemory {
    /// Memory holds exactly `MEMORY_SIZE` cells.
    pub proof fn lemma_size(&self)
        ensures
            self@.len() == MEMORY_SIZE,
    {
    }

    /// Memory with every cell zero.
    pub fn new() -> (r: Self)
        ensures
            r@ == Seq::new(MEMORY_SIZE as nat, |i: int| 0u8),
    {
        let r = MainMemory { mem: [0u8; MEMORY_SIZE] };
        assert(r@ =~= Seq::new(MEMORY_SIZE as nat, |i: int| 0u8));
        r
    }

    /// Memory with the font at address 0 and the program of `rom` at `PROGRAM_BEGIN`,
    /// zero elsewhere.
    pub fn with_rom(rom: ROM) -> (r: Self)
        requires
            rom@.len() <= MAX_ROM_SIZE,
        ensures
            r@ == loaded(rom@),
    {
        let mut mem = [0u8; MEMORY_SIZE];
        let n = rom.size();
        let bytes = rom.bytes();
        let mut i: usize = 0;
        while i < n
            invariant
                n == rom@.len() <= MAX_ROM_SIZE,
                bytes@ == rom@,
                i <= n,
                forall|j: int|
                    0 <= j < MEMORY_SIZE ==> #[trigger] mem@[j] == if PROGRAM_BEGIN <= j
                        < PROGRAM_BEGIN + i {
                        rom@[j - PROGRAM_BEGIN]
                    } else {
                        0u8
                    },
            decreases n - i,
        {
            mem[PROGRAM_BEGIN + i] = bytes[i];
            i = i + 1;
        }
        let mut r = MainMemory { mem };
        r.load_fontset();
        assert(r@ =~= loaded(rom@));
        r
    }

    /// The `offset` bytes that start at `address`.
    pub fn read_bytes(&self, address: Address, offset: Address) -> (r: Vec<Byte>)
        requires
            address + offset <= MEMORY_SIZE,
        ensures
            r@ == self@.subrange(address as int, address + offset),
    {
        let mut r: Vec<Byte> = Vec::new();
        let start = address as usize;
        let end = address as usize + offset as usize;
        let mut i = start;
        while i < end
            invariant
                start <= i <= end <= MEMORY_SIZE,
                r@ == self@.subrange(start as int, i as int),
            decreases end - i,
        {
            r.push(self.mem[i]);
            i = i + 1;
            assert(r@ =~= self@.subrange(start as int, i as int));
        }
        r
    }

    /// Places the font in the first 80 bytes and leaves the rest as it was.
    fn load_fontset(&mut self)
        ensures
            final(self)@ == fontset() + old(self)@.subrange(80, MEMORY_SIZE as int),
    {
        put_glyph(&mut self.mem, 0, (0xF0, 0x90, 0x90, 0x90, 0xF0));
        put_glyph(&mut self.mem, 5, (0x20, 0x60, 0x20, 0x20, 0x70));
        put_glyph(&mut self.mem, 10, (0xF0, 0x10, 0xF0, 0x80, 0xF0));
        put_glyph(&mut self.mem, 15, (0xF0, 0x10, 0xF0, 0x10, 0xF0));
        put_glyph(&mut self.mem, 20, (0x90, 0x90, 0xF0, 0x10, 0x10));
        put_glyph(&mut self.mem, 25, (0xF0, 0x80, 0xF0, 0x10, 0xF0));
        put_glyph(&mut self.mem, 30, (0xF0, 0x80, 0xF0, 0x90, 0xF0));
        put_glyph(&mut self.mem, 35, (0xF0, 0x10, 0x20, 0x40, 0x40));
        put_glyph(&mut self.mem, 40, (0xF0, 0x90, 0xF0, 0x90, 0xF0));
        put_glyph(&mut self.mem, 45, (0xF0, 0x90, 0xF0, 0x10, 0xF0));
        put_glyph(&mut self.mem, 50, (0xF0, 0x90, 0xF0, 0x90, 0x90));
        put_glyph(&mut self.mem, 55, (0xE0, 0x90, 0xE0, 0x90, 0xE0));
        put_glyph(&mut self.mem, 60, (0xF0, 0x80, 0x80, 0x80, 0xF0));
        put_glyph(&mut self.mem, 65, (0xE0, 0x90, 0x90, 0x90, 0xE0));
        put_glyph(&mut self.mem, 70, (0xF0, 0x80, 0xF0, 0x80, 0xF0));
        put_glyph(&mut self.mem, 75, (0xF0, 0x80, 0xF0, 0x80, 0x80));
        assert(self@ =~= fontset() + old(self)@.subrange(80, MEMORY_SIZE as int));
    }
}

impl Memory for MainMemory {
    type Address = Address;

    type Value = Byte;

    open spec fn valid_address(&self, address: Address) -> bool {
        address < MEMORY_SIZE
    }

    open spec fn value_at(&self, address: Address) -> Byte {
        self@[address as int]
    }

    open spec fn written(&self, address: Address, value: Byte, after: Self) -> bool {
        after@ == self@.update(address as int, value)
    }

    fn read(&self, address: Address) -> (r: Byte) {
        self.mem[address as usize]
    }

    fn write(&mut self, address: Address, value: Byte) {
        self.mem[address as usize] = value;
    }
}

impl ROM {
    /// A program image made of `data`.
    pub fn from_bytes(data: Vec<Byte>) -> (r: Self)
        ensures
            r@ == data@,
    {
        ROM { data }
    }

    /// The number of bytes of the image.
    pub fn size(&self) -> (r: usize)
        ensures
            r == self@.len(),
    {
        self.data.len()
    }

    /// The bytes of the image.
    pub fn bytes(&self) -> (r: &[u8])
        ensures
            r@ == self@,
    {
        self.data.as_slice()
    }

    /// The image read as big-endian instruction words.
    pub fn instructions(&self) -> (r: Vec<u16>)
        ensures
            r@ == words_of(self@),
    {
        let n = self.data.len();
        let count = n / 2 + n % 2;
        let mut r: Vec<u16> = Vec::new();
        let mut k: usize = 0;
        while k < count
            invariant
                n == self@.len(),
                count == (n + 1) / 2,
                k <= count,
                r.len() == k,
                forall|j: int| 0 <= j < k ==> #[trigger] r@[j] == words_of(self@)[j],
            decreases count - k,
        {
            let i = 2 * k;
            let right = if i + 1 < n {
                self.data[i + 1]
            } else {
                0u8
            };
            r.push(merge_bytes(self.data[i], right));
            k = k + 1;
        }
        assert(r@ =~= words_of(self@));
        r
    }
}

/// What memory holds once the font and a program of `rom` bytes are in place.
pub open spec fn loaded(rom: Seq<u8>) -> Seq<u8> {
    Seq::new(
        MEMORY_SIZE as nat,
        |i: int|
            if i < 80 {
                fontset()[i]
            } else if PROGRAM_BEGIN <= i < PROGRAM_BEGIN + rom.len() {
                rom[i - PROGRAM_BEGIN]
            } else {
                0u8
            },
    )
}

/// The instruction words of a program image: big-endian pairs of bytes, an odd
/// last byte taken as the high byte of a word whose low byte is zero.
pub open spec fn words_of(data: Seq<u8>) -> Seq<u16> {
    Seq::new(
        ((data.len() + 1) / 2) as nat,
        |k: int|
            word_of(data[2 * k], if 2 * k + 1 < data.len() { data[2 * k + 1] } else { 0u8 }),
    )
}

/// Writes five glyph rows starting at `at`.
fn put_glyph(mem: &mut [u8; MEMORY_SIZE], at: usize, rows: (u8, u8, u8, u8, u8))
    requires
        at + 5 <= MEMORY_SIZE,
    ensures
        final(mem)@ == old(mem)@.update(at as int, rows.0).update(at + 1, rows.1).update(
            at + 2,
            rows.2,
        ).update(at + 3, rows.3).update(at + 4, rows.4),
{
    mem[at] = rows.0;
    mem[at + 1] = rows.1;
    mem[at + 2] = rows.2;
    mem[at + 3] = rows.3;
    mem[at + 4] = rows.4;
}

/// The big-endian word made of `left` (high byte) and `right` (low byte).
pub fn merge_bytes(left: u8, right: u8) -> (r: u16)
    ensures
        r == word_of(left, right),
{
    (left as u16) * 256 + (right as u16)
}

/// A byte written at an address of memory reads back as written, every other
/// cell keeps its byte, and exactly the addresses below `MEMORY_SIZE` can be read
/// or written.
pub proof fn lemma_write_then_read(m: MainMemory, after: MainMemory, a: u16, v: u8, other: u16)
    requires
        m.valid_address(a),
        m.written(a, v, after),
    ensures
        after.valid_address(a) && after.value_at(a) == v,
        m.valid_address(other) && other != a ==> after.value_at(other) == m.value_at(other),
        m.valid_address(other) <==> other < MEMORY_SIZE,
{
}

} // verus!
