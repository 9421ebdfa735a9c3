//! The 64×32 monochrome frame buffer and its sprite rasterizer.

use vstd::prelude::*;

use crate::memory::Memory;
use crate::specs::Byte;

verus! {

/// Rows of the screen.
pub const FRAME_HEIGHT: usize = 32;

/// Columns of the screen.
pub const FRAME_WIDTH: usize = 64;

/// Whether the pixel in column `col` of `row` is lit: column 0 is the most
/// significant bit of the row word.
pub open spec fn lit(row: u64, col: int) -> bool {
    (row >> ((63 - col) as u64)) & 1u64 == 1u64
}

/// The row word that lights the eight bits of `byte` from column `x` on, most
/// significant bit first, columns wrapping past the right edge.
pub open spec fn sprite_mask(byte: u8, x: u64) -> u64 {
    let w = (byte as u64) << 56u64;
    if x == 0 {
        w
    } else {
        (w >> x) | (w << ((64 - x) as u64))
    }
}

/// The rows of `rows` once `sprite` has been XORed in with its top-left corner at
/// column `x` (wrapping) and row `y`; rows below the screen are not drawn.
pub open spec fn drawn(rows: Seq<u64>, x: u64, y: int, sprite: Seq<u8>) -> Seq<u64> {
    Seq::new(
        rows.len(),
        |j: int|
            if y <= j < y + sprite.len() {
                rows[j] ^ sprite_mask(sprite[j - y], x)
            } else {
                rows[j]
            },
    )
}

/// Whether drawing `sprite` at column `x` and row `y` over `rows` turns some lit
/// pixel off: some drawn row shares a lit pixel with its sprite row.
pub open spec fn collides(rows: Seq<u64>, x: u64, y: int, sprite: Seq<u8>) -> bool {
    exists|j: int|
        0 <= j < rows.len() && y <= j < y + sprite.len() && #[trigger] rows[j] & sprite_mask(
            sprite[j - y],
            x,
        ) != 0u64
}

/// The screen: one 64-bit word per row.
pub struct FrameBuffer {
    buffer: [u64; FRAME_HEIGHT],
}

impl View for FrameBuffer {
    type V = Seq<u64>;

    closed spec fn view(&self) -> Seq<u64> {
        self.buffer@
    }
}

fn row_mask(byte: u8, x: u64) -> (r: u64)
    requires
        x < 64,
    ensures
        r == sprite_mask(byte, x),
{
    let w = (byte as u64) << 56u64;
    if x == 0 {
        w
    } else {
        (w >> x) | (w << (64 - x))
    }
}

impl FrameBuffer {
    /// The screen has `FRAME_HEIGHT` rows.
    pub proof fn lemma_size(&self)
        ensures
            self@.len() == FRAME_HEIGHT,
    {
    }

    /// A dark screen.
    pub fn new() -> (r: Self)
        ensures
            r@ == Seq::new(FRAME_HEIGHT as nat, |i: int| 0u64),
    {
        let r = FrameBuffer { buffer: [0u64; FRAME_HEIGHT] };
        assert(r@ =~= Seq::new(FRAME_HEIGHT as nat, |i: int| 0u64));
        r
    }

    /// XORs the eight pixels of `byte` into row `y` from column `x` on, and tells
    /// whether a lit pixel was turned off.
    fn write_byte(&mut self, x: u64, y: usize, byte: Byte) -> (erased: bool)
        requires
            x < 64,
            y < FRAME_HEIGHT,
        ensures
            final(self)@ == old(self)@.update(y as int, old(self)@[y as int] ^ sprite_mask(byte, x)),
            erased == (old(self)@[y as int] & sprite_mask(byte, x) != 0u64),
    {
        let mask = row_mask(byte, x);
        let before = self.buffer[y];
        self.buffer[y] = before ^ mask;
        before & mask != 0
    }

    /// Turns every pixel off.
    pub fn clear_screen(&mut self)
        ensures
            final(self)@ == Seq::new(FRAME_HEIGHT as nat, |i: int| 0u64),
    {
        self.buffer = [0u64; FRAME_HEIGHT];
        assert(self@ =~= Seq::new(FRAME_HEIGHT as nat, |i: int| 0u64));
    }

    /// Draws `bytes` as a sprite, one byte per row, with its top-left corner at
    /// `pos` (column wrapping modulo 64, rows past the bottom left out), and tells
    /// whether any lit pixel was turned off.
    pub fn write_bytes(&mut self, pos: (usize, usize), bytes: &[Byte]) -> (erased: bool)
        ensures
            final(self)@ == drawn(old(self)@, (pos.0 % 64) as u64, pos.1 as int, bytes@),
            erased == collides(old(self)@, (pos.0 % 64) as u64, pos.1 as int, bytes@),
    {
        let x = (pos.0 % 64) as u64;
        let y = pos.1;
        let mut erased = false;
        if y < FRAME_HEIGHT {
            let n = bytes.len();
            let mut r: usize = 0;
            while r < n && y + r < FRAME_HEIGHT
                invariant
                    x < 64,
                    y < FRAME_HEIGHT,
                    n == bytes@.len(),
                    r <= n,
                    y + r <= FRAME_HEIGHT,
                    self@ == drawn(old(self)@, x, y as int, bytes@.subrange(0, r as int)),
                    erased == collides(old(self)@, x, y as int, bytes@.subrange(0, r as int)),
                decreases n - r,
            {
                let e = self.write_byte(x, y + r, bytes[r]);
                erased = erased || e;
                r = r + 1;
                assert(self@ =~= drawn(old(self)@, x, y as int, bytes@.subrange(0, r as int)));
                assert(erased == collides(old(self)@, x, y as int, bytes@.subrange(0, r as int)))
                    by {
                    if e {
                        assert(old(self)@[y + r - 1] & sprite_mask(
                            bytes@.subrange(0, r as int)[r - 1],
                            x,
                        ) != 0u64);
                    }
                };
            }
            assert(self@ =~= drawn(old(self)@, x, y as int, bytes@));
            assert(erased == collides(old(self)@, x, y as int, bytes@)) by {
                if collides(old(self)@, x, y as int, bytes@) {
                    let j = choose|j: int|
                        0 <= j < old(self)@.len() && y <= j < y + bytes@.len()
                            && #[trigger] old(self)@[j] & sprite_mask(bytes@[j - y], x) != 0u64;
                    assert(bytes@.subrange(0, r as int)[j - y] == bytes@[j - y]);
                }
            };
        } else {
            assert(self@ =~= drawn(old(self)@, x, y as int, bytes@));
        }
        erased
    }
}

impl Memory for FrameBuffer {
    type Address = (usize, usize);

    type Value = bool;

    open spec fn valid_address(&self, address: (usize, usize)) -> bool {
        address.0 < FRAME_WIDTH && address.1 < FRAME_HEIGHT
    }

    open spec fn value_at(&self, address: (usize, usize)) -> bool {
        lit(self@[address.1 as int], address.0 as int)
    }

    /// Writing `true` flips the pixel; writing `false` leaves it.
    open spec fn written(&self, address: (usize, usize), value: bool, after: Self) -> bool {
        after@ == self@.update(
            address.1 as int,
            self@[address.1 as int] ^ (if value {
                1u64 << ((63 - address.0) as u64)
            } else {
                0u64
            }),
        )
    }

    fn read(&self, address: (usize, usize)) -> (r: bool) {
        let (x, y) = address;
        (self.buffer[y] >> ((63 - x) as u64)) & 1 == 1
    }

    fn write(&mut self, address: (usize, usize), value: bool) {
        let (x, y) = address;
        if value {
            self.buffer[y] = self.buffer[y] ^ (1u64 << ((63 - x) as u64));
        } else {
            self.buffer[y] = self.buffer[y] ^ 0;
        }
    }
}

/// Drawing over a dark screen turns no pixel off.
pub proof fn lemma_dark_screen_no_collision(rows: Seq<u64>, x: u64, y: int, sprite: Seq<u8>)
    ensures
        (forall|j: int| 0 <= j < rows.len() ==> rows[j] == 0u64) ==> !collides(rows, x, y, sprite),
{
    if forall|j: int| 0 <= j < rows.len() ==> rows[j] == 0u64 {
        assert forall|j: int| 0 <= j < rows.len() && y <= j < y + sprite.len() implies #[trigger] rows[j]
            & sprite_mask(sprite[j - y], x) == 0u64 by {
            let m = sprite_mask(sprite[j - y], x);
            assert(0u64 & m == 0u64) by (bit_vector);
        }
    }
}

/// Drawing a sprite that lights a pixel already lit turns that pixel off.
pub proof fn lemma_shared_pixel_collides(rows: Seq<u64>, x: u64, y: int, sprite: Seq<u8>)
    ensures
        (exists|j: int, p: int|
            0 <= j < rows.len() && y <= j < y + sprite.len() && 0 <= p < 64 && #[trigger] lit(rows[j], p) && lit(sprite_mask(sprite[j - y], x), p)) ==> collides(rows, x, y, sprite),
{
    if exists|j: int, p: int|
        0 <= j < rows.len() && y <= j < y + sprite.len() && 0 <= p < 64 && #[trigger] lit(rows[j], p) && lit(sprite_mask(sprite[j - y], x), p) {
        let (j, p) = choose|j: int, p: int|
            0 <= j < rows.len() && y <= j < y + sprite.len() && 0 <= p < 64 && #[trigger] lit(rows[j], p) && lit(sprite_mask(sprite[j - y], x), p);
        let a = rows[j];
        let m = sprite_mask(sprite[j - y], x);
        let s = (63 - p) as u64;
        assert(((a >> s) & 1u64 == 1u64 && (m >> s) & 1u64 == 1u64) ==> a & m != 0u64)
            by (bit_vector);
        assert(rows[j] & sprite_mask(sprite[j - y], x) != 0u64);
    }
}

/// How many window pixels stand for one screen pixel, in each direction.
pub const SCALE: usize = 10;

/// Width of the scaled picture.
pub const WINDOW_WIDTH: usize = 640;

/// Height of the scaled picture.
pub const WINDOW_HEIGHT: usize = 320;

/// The colour of a lit pixel.
pub const LIT_COLOUR: u32 = 0xFFFFFF;

/// The colour of window pixel `k` (row by row) of the screen `rows` scaled ten times.
pub open spec fn scaled_colour(rows: Seq<u64>, k: int) -> u32 {
    if lit(rows[(k / 640) / 10], (k % 640) / 10) {
        LIT_COLOUR
    } else {
        0
    }
}

impl FrameBuffer {
    /// The screen scaled ten times, row by row: lit pixels white, others black.
    pub fn scaled_pixels(&self) -> (r: Vec<u32>)
        ensures
            r.len() == WINDOW_WIDTH * WINDOW_HEIGHT,
            forall|k: int| 0 <= k < r.len() ==> #[trigger] r[k] == scaled_colour(self@, k),
    {
        let total = WINDOW_WIDTH * WINDOW_HEIGHT;
        let mut r: Vec<u32> = Vec::new();
        let mut k: usize = 0;
        while k < total
            invariant
                total == WINDOW_WIDTH * WINDOW_HEIGHT,
                k <= total,
                r.len() == k,
                forall|j: int| 0 <= j < k ==> #[trigger] r[j] == scaled_colour(self@, j),
            decreases total - k,
        {
            let y = k / WINDOW_WIDTH;
            let x = k % WINDOW_WIDTH;
            assert(y < 320 && x < 640);
            let on = self.read((x / SCALE, y / SCALE));
            r.push(
                if on {
                    LIT_COLOUR
                } else {
                    0
                },
            );
            k = k + 1;
        }
        r
    }
}

} // verus!
