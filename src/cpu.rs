//! The processor: registers, call stack, timers, and the fetch-decode-execute cycle.

use vstd::prelude::*;

use rand::Rng;

use crate::bus::{overwritten, Bus, BusView};
use crate::display::{
    collides, drawn, lemma_dark_screen_no_collision, lemma_shared_pixel_collides, lit, sprite_mask,
    FRAME_HEIGHT,
};
use crate::instruction::{decode_instruction, decoded, InstructionData};
use crate::memory::word_of;
use crate::specs::{
    Address, Byte, Instruction, Nibble, Register, MEMORY_SIZE, PROGRAM_BEGIN, REGISTERS_COUNT,
    STACK_SIZE,
};
use crate::watcher::Watcher;

verus! {

#[verifier::external_type_specification]
#[verifier::external_body]
pub struct ExThreadRng(rand::rngs::ThreadRng);

/// Relies on rand::thread_rng: a handle on this thread's random generator (which
/// panics only when the operating system cannot seed it).
#[verifier::external_body]
fn thread_rng() -> rand::rngs::ThreadRng {
    rand::thread_rng()
}

/// Relies on rand::Rng::gen_range: a value drawn from `[low, high)`, which it
/// panics on when empty.
#[verifier::external_body]
fn gen_range(rng: &mut rand::rngs::ThreadRng, low: u16, high: u16) -> (r: u16)
    requires
        low < high,
    ensures
        low <= r < high,
{
    rng.gen_range(low, high)
}

/// Why the machine cannot go on.
#[derive(Debug, Clone, Copy, PartialEq, Eq, Structural)]
pub enum Fault {
    /// The word at the program counter encodes no instruction.
    IllegalInstruction,
    /// `RET` with an empty call stack.
    StackUnderflow,
    /// `CALL` with a full call stack.
    StackOverflow,
    /// A fetch, load or store that reaches past the end of memory.
    AddressOutOfRange,
}

/// The processor's state: index register, program counter, the registers
/// `V0` to `VF`, the call stack with its pointer, and the two timers.
pub struct CpuView {
    pub i: u16,
    pub pc: u16,
    pub v: Seq<u8>,
    pub stack: Seq<u16>,
    pub sp: u8,
    pub dt: u8,
    pub st: u8,
}

/// The state in which the machine starts, and to which `reset` brings it back.
pub open spec fn initial() -> CpuView {
    CpuView {
        i: 0,
        pc: PROGRAM_BEGIN as u16,
        v: Seq::new(REGISTERS_COUNT as nat, |k: int| 0u8),
        stack: Seq::new(STACK_SIZE as nat, |k: int| 0u16),
        sp: 0,
        dt: 0,
        st: 0,
    }
}

/// Whether the register operands of `d` name registers.
pub open spec fn operands_in_range(d: InstructionData) -> bool {
    match d {
        InstructionData::Se(x, _) | InstructionData::Sne(x, _) | InstructionData::Ld(x, _)
        | InstructionData::Add(x, _) | InstructionData::Rnd(x, _) | InstructionData::Skp(x)
        | InstructionData::Sknp(x) | InstructionData::LdRegDt(x) | InstructionData::LdK(x)
        | InstructionData::LdDtReg(x) | InstructionData::LdSt(x) | InstructionData::AddI(x)
        | InstructionData::LdF(x) | InstructionData::LdB(x) | InstructionData::LdIMem(x)
        | InstructionData::LdVx(x) => x < 16,
        InstructionData::SeReg(x, y) | InstructionData::LdReg(x, y) | InstructionData::Or(x, y)
        | InstructionData::And(x, y) | InstructionData::Xor(x, y) | InstructionData::AddReg(x, y)
        | InstructionData::SubReg(x, y) | InstructionData::Shr(x, y) | InstructionData::SubN(
            x,
            y,
        ) | InstructionData::Shl(x, y) | InstructionData::SneReg(x, y) | InstructionData::Drw(
            x,
            y,
            _,
        ) => x < 16 && y < 16,
        _ => true,
    }
}

/// The fault that executing `d` from state `c` meets, if any.
pub open spec fn execution_fault(c: CpuView, d: InstructionData) -> Option<Fault> {
    match d {
        InstructionData::Unknown => Some(Fault::IllegalInstruction),
        InstructionData::Ret => if c.sp == 0 {
            Some(Fault::StackUnderflow)
        } else {
            None
        },
        InstructionData::Call(_) => if c.sp >= STACK_SIZE {
            Some(Fault::StackOverflow)
        } else {
            None
        },
        InstructionData::Drw(_, _, n) => if c.i + n > MEMORY_SIZE {
            Some(Fault::AddressOutOfRange)
        } else {
            None
        },
        InstructionData::LdB(_) => if c.i + 3 > MEMORY_SIZE {
            Some(Fault::AddressOutOfRange)
        } else {
            None
        },
        InstructionData::LdIMem(x) | InstructionData::LdVx(x) => if c.i + x + 1 > MEMORY_SIZE {
            Some(Fault::AddressOutOfRange)
        } else {
            None
        },
        _ => None,
    }
}

/// The instruction word at the program counter.
pub open spec fn fetched(c: CpuView, b: BusView) -> u16 {
    word_of(b.ram[c.pc as int], b.ram[c.pc + 1])
}

/// `c` with the program counter moved past the fetched word.
pub open spec fn advanced(c: CpuView) -> CpuView {
    CpuView { pc: (c.pc + 2) as u16, ..c }
}

/// The fault that the next tick from `c` over `b` meets, if any.
pub open spec fn tick_fault(c: CpuView, b: BusView) -> Option<Fault> {
    if c.pc + 1 >= MEMORY_SIZE {
        Some(Fault::AddressOutOfRange)
    } else {
        execution_fault(advanced(c), decoded(fetched(c, b)))
    }
}

/// `c` with the next instruction skipped when `cond` holds.
pub open spec fn skip_if(c: CpuView, cond: bool) -> CpuView {
    if cond {
        CpuView { pc: (c.pc + 2) as u16, ..c }
    } else {
        c
    }
}

/// `c` with `value` in register `x`.
pub open spec fn set(c: CpuView, x: u8, value: u8) -> CpuView {
    CpuView { v: c.v.update(x as int, value), ..c }
}

/// `c` with `value` in register `x`, then `flag` in `VF`.
pub open spec fn set_flagged(c: CpuView, x: u8, value: u8, flag: u8) -> CpuView {
    CpuView { v: c.v.update(x as int, value).update(15, flag), ..c }
}

/// The three decimal digits of `v`, hundreds first.
pub open spec fn bcd(v: u8) -> Seq<u8> {
    seq![(v / 100) as u8, ((v / 10) % 10) as u8, (v % 10) as u8]
}

/// The state after executing `d` from `c` (whose program counter already points
/// past `d`) over `b`, with `random` as the byte drawn by `RND`.
pub open spec fn executed(c: CpuView, b: BusView, d: InstructionData, random: u8) -> (
    CpuView,
    BusView,
) {
    match d {
        InstructionData::Cls => (
            c,
            BusView { screen: Seq::new(FRAME_HEIGHT as nat, |k: int| 0u64), ..b },
        ),
        InstructionData::Ret => (
            CpuView { pc: c.stack[c.sp - 1], sp: (c.sp - 1) as u8, ..c },
            b,
        ),
        InstructionData::Jp(n) => (CpuView { pc: n, ..c }, b),
        InstructionData::Call(n) => (
            CpuView { stack: c.stack.update(c.sp as int, c.pc), sp: (c.sp + 1) as u8, pc: n, ..c },
            b,
        ),
        InstructionData::Se(x, kk) => (skip_if(c, c.v[x as int] == kk), b),
        InstructionData::Sne(x, kk) => (skip_if(c, c.v[x as int] != kk), b),
        InstructionData::SeReg(x, y) => (skip_if(c, c.v[x as int] == c.v[y as int]), b),
        InstructionData::SneReg(x, y) => (skip_if(c, c.v[x as int] != c.v[y as int]), b),
        InstructionData::Ld(x, kk) => (set(c, x, kk), b),
        InstructionData::Add(x, kk) => (set(c, x, ((c.v[x as int] + kk) % 256) as u8), b),
        InstructionData::LdReg(x, y) => (set(c, x, c.v[y as int]), b),
        InstructionData::Or(x, y) => (set(c, x, c.v[x as int] | c.v[y as int]), b),
        InstructionData::And(x, y) => (set(c, x, c.v[x as int] & c.v[y as int]), b),
        InstructionData::Xor(x, y) => (set(c, x, c.v[x as int] ^ c.v[y as int]), b),
        InstructionData::AddReg(x, y) => {
            let s = c.v[x as int] + c.v[y as int];
            (set_flagged(c, x, (s % 256) as u8, if s > 255 { 1u8 } else { 0u8 }), b)
        },
        InstructionData::SubReg(x, y) => {
            let (vx, vy) = (c.v[x as int], c.v[y as int]);
            (set_flagged(c, x, ((vx - vy + 256) % 256) as u8, if vx > vy { 1u8 } else { 0u8 }), b)
        },
        InstructionData::Shr(x, _) => {
            let vx = c.v[x as int];
            (set_flagged(c, x, vx / 2, vx % 2), b)
        },
        InstructionData::SubN(x, y) => {
            let (vx, vy) = (c.v[x as int], c.v[y as int]);
            (set_flagged(c, x, ((vy - vx + 256) % 256) as u8, if vy > vx { 1u8 } else { 0u8 }), b)
        },
        InstructionData::Shl(x, _) => {
            let vx = c.v[x as int];
            (set_flagged(c, x, ((vx * 2) % 256) as u8, vx / 128), b)
        },
        InstructionData::LdI(n) => (CpuView { i: n, ..c }, b),
        InstructionData::JpV0(n) => (CpuView { pc: ((c.v[0] + n) % 65536) as u16, ..c }, b),
        InstructionData::Rnd(x, kk) => (set(c, x, random & kk), b),
        InstructionData::Drw(x, y, n) => {
            let sprite = b.ram.subrange(c.i as int, c.i + n);
            let col = (c.v[x as int] % 64) as u64;
            let row = (c.v[y as int] % 32) as int;
            (
                set(c, 15, if collides(b.screen, col, row, sprite) { 1u8 } else { 0u8 }),
                BusView { screen: drawn(b.screen, col, row, sprite), ..b },
            )
        },
        InstructionData::Skp(x) => (skip_if(c, b.key == Some(c.v[x as int])), b),
        InstructionData::Sknp(x) => (skip_if(c, b.key != Some(c.v[x as int])), b),
        InstructionData::LdRegDt(x) => (set(c, x, c.dt), b),
        InstructionData::LdK(x) => match b.key {
            Some(k) => (set(c, x, k), b),
            None => (CpuView { pc: (c.pc - 2) as u16, ..c }, b),
        },
        InstructionData::LdDtReg(x) => (CpuView { dt: c.v[x as int], ..c }, b),
        InstructionData::LdSt(x) => (CpuView { st: c.v[x as int], ..c }, b),
        InstructionData::AddI(x) => (CpuView { i: ((c.i + c.v[x as int]) % 65536) as u16, ..c }, b),
        InstructionData::LdF(x) => (CpuView { i: (5 * c.v[x as int]) as u16, ..c }, b),
        InstructionData::LdB(x) => (
            c,
            BusView { ram: overwritten(b.ram, c.i as int, bcd(c.v[x as int])), ..b },
        ),
        InstructionData::LdIMem(x) => (
            c,
            BusView { ram: overwritten(b.ram, c.i as int, c.v.subrange(0, x + 1)), ..b },
        ),
        InstructionData::LdVx(x) => (
            CpuView {
                v: Seq::new(
                    c.v.len(),
                    |k: int|
                        if k <= x {
                            b.ram[c.i + k]
                        } else {
                            c.v[k]
                        },
                ),
                ..c
            },
            b,
        ),
        InstructionData::Sys(_) | InstructionData::Unknown => (c, b),
    }
}

/// The state after one tick from `c` over `b`: fetch the word at the program
/// counter, move past it, then execute what it encodes.
pub open spec fn ticked(c: CpuView, b: BusView, random: u8) -> (CpuView, BusView) {
    executed(advanced(c), b, decoded(fetched(c, b)), random)
}

/// The processor.
pub struct CPU {
    i: Register<Address>,
    pc: Register<Address>,
    registers: [Register<Byte>; REGISTERS_COUNT],
    stack: [Address; STACK_SIZE],
    sp: Register<Byte>,
    delay_timer: Byte,
    sound_timer: Byte,
    random_device: rand::rngs::ThreadRng,
    watcher: Watcher,
}

impl View for CPU {
    type V = CpuView;

    closed spec fn view(&self) -> CpuView {
        CpuView {
            i: self.i,
            pc: self.pc,
            v: self.registers@,
            stack: self.stack@,
            sp: self.sp,
            dt: self.delay_timer,
            st: self.sound_timer,
        }
    }
}

impl CPU {
    #[verifier::type_invariant]
    spec fn inv(&self) -> bool {
        self.sp <= STACK_SIZE
    }

    /// The stack pointer never exceeds the stack, and there are sixteen registers
    /// and sixteen stack slots.
    pub proof fn lemma_shape(&self)
        ensures
            self@.v.len() == REGISTERS_COUNT,
            self@.stack.len() == STACK_SIZE,
    {
    }

    /// A processor in the initial state, reporting to `watcher`.
    pub fn new(watcher: Watcher) -> (r: Self)
        ensures
            r@ == initial(),
            r.reports() == watcher.verbose,
    {
        let r = CPU {
            i: 0x0,
            pc: PROGRAM_BEGIN as Address,
            registers: [0x0u8; REGISTERS_COUNT],
            stack: [0x0u16; STACK_SIZE],
            sp: 0x0,
            delay_timer: 0,
            sound_timer: 0,
            random_device: thread_rng(),
            watcher,
        };
        assert(r@.v =~= initial().v);
        assert(r@.stack =~= initial().stack);
        r
    }

    /// Back to the initial state; memory and screen are not touched.
    pub fn reset(&mut self)
        ensures
            final(self)@ == initial(),
    {
        proof {
            use_type_invariant(&*self);
        }
        self.i = 0x0;
        self.pc = PROGRAM_BEGIN as Address;
        self.registers = [0x0u8; REGISTERS_COUNT];
        self.stack = [0x0u16; STACK_SIZE];
        self.sp = 0x0;
        self.delay_timer = 0;
        self.sound_timer = 0;
        assert(self@.v =~= initial().v);
        assert(self@.stack =~= initial().stack);
    }

    /// The program counter.
    pub fn pc(&self) -> (r: Address)
        ensures
            r == self@.pc,
    {
        self.pc
    }

    /// The index register `I`.
    pub fn index_register(&self) -> (r: Address)
        ensures
            r == self@.i,
    {
        self.i
    }

    /// The number of frames on the call stack.
    pub fn stack_pointer(&self) -> (r: u8)
        ensures
            r == self@.sp,
    {
        self.sp
    }

    /// The call stack's slots, bottom first.
    pub fn stack(&self) -> (r: [Address; STACK_SIZE])
        ensures
            r@ == self@.stack,
    {
        self.stack
    }

    /// The registers `V0` to `VF`.
    pub fn registers(&self) -> (r: [Byte; REGISTERS_COUNT])
        ensures
            r@ == self@.v,
    {
        self.registers
    }

    /// The delay timer.
    pub fn delay_timer(&self) -> (r: Byte)
        ensures
            r == self@.dt,
    {
        self.delay_timer
    }

    /// The sound timer.
    pub fn sound_timer(&self) -> (r: Byte)
        ensures
            r == self@.st,
    {
        self.sound_timer
    }

    /// Whether execution is to be reported, as the observer given at
    /// construction asked.
    pub closed spec fn reports(&self) -> bool {
        self.watcher.verbose
    }

    /// Whether execution is to be reported.
    pub fn verbose(&self) -> (r: bool)
        ensures
            r == self.reports(),
    {
        self.watcher.verbose
    }

    /// Register `Vindex`.
    pub fn get_reg(&self, index: Nibble) -> (r: Byte)
        requires
            index < REGISTERS_COUNT,
        ensures
            r == self@.v[index as int],
    {
        self.registers[index as usize]
    }

    fn set_reg(&mut self, index: Nibble, value: Byte)
        requires
            index < REGISTERS_COUNT,
        ensures
            final(self)@ == set(old(self)@, index, value),
    {
        proof {
            use_type_invariant(&*self);
        }
        self.registers[index as usize] = value;
    }

    fn set_flagged(&mut self, index: Nibble, value: Byte, flag: Byte)
        requires
            index < REGISTERS_COUNT,
        ensures
            final(self)@ == set_flagged(old(self)@, index, value, flag),
    {
        proof {
            use_type_invariant(&*self);
        }
        self.registers[index as usize] = value;
        self.registers[15] = flag;
    }

    fn skip_if(&mut self, cond: bool)
        requires
            old(self)@.pc <= MEMORY_SIZE,
        ensures
            final(self)@ == skip_if(old(self)@, cond),
    {
        proof {
            use_type_invariant(&*self);
        }
        if cond {
            self.pc = self.pc + 2;
        }
    }

    /// Reads the word at the program counter and moves past it.
    fn fetch(&mut self, bus: &Bus) -> (r: Instruction)
        requires
            old(self)@.pc + 1 < MEMORY_SIZE,
        ensures
            r == fetched(old(self)@, bus@),
            final(self)@ == advanced(old(self)@),
    {
        proof {
            use_type_invariant(&*self);
        }
        proof {
            bus.lemma_sizes();
        }
        let instr = bus.read_instruction(self.pc);
        self.pc = self.pc + 2;
        instr
    }

    fn decode(&self, instr: Instruction) -> (r: InstructionData)
        ensures
            r == decoded(instr),
            operands_in_range(r),
    {
        let r = decode_instruction(instr);
        assert(operands_in_range(decoded(instr)));
        r
    }

    /// Executes `data`, the program counter already past it; `random` is the
    /// byte that `RND` draws.
    fn execute(&mut self, data: InstructionData, bus: &mut Bus, random: u8) -> (r: Address)
        requires
            operands_in_range(data),
            execution_fault(old(self)@, data) is None,
            2 <= old(self)@.pc <= MEMORY_SIZE,
        ensures
            (final(self)@, final(bus)@) == executed(old(self)@, old(bus)@, data, random),
            r == final(self)@.pc,
    {
        proof {
            use_type_invariant(&*self);
            (*bus).lemma_sizes();
        }
        match data {
            InstructionData::Cls => bus.clear_screen(),
            InstructionData::Ret => {
                self.pc = self.stack[(self.sp - 1) as usize];
                self.sp = self.sp - 1;
            },
            InstructionData::Jp(n) => self.pc = n,
            InstructionData::Call(n) => {
                self.stack[self.sp as usize] = self.pc;
                self.sp = self.sp + 1;
                self.pc = n;
            },
            InstructionData::Se(x, n) => {
                let vx = self.get_reg(x);
                self.skip_if(vx == n);
            },
            InstructionData::Sne(x, n) => {
                let vx = self.get_reg(x);
                self.skip_if(vx != n);
            },
            InstructionData::SeReg(x, y) => {
                let (vx, vy) = (self.get_reg(x), self.get_reg(y));
                self.skip_if(vx == vy);
            },
            InstructionData::SneReg(x, y) => {
                let (vx, vy) = (self.get_reg(x), self.get_reg(y));
                self.skip_if(vx != vy);
            },
            InstructionData::Ld(x, n) => self.set_reg(x, n),
            InstructionData::Add(x, n) => {
                let sum = self.get_reg(x) as u16 + n as u16;
                self.set_reg(x, (sum % 256) as u8);
            },
            InstructionData::LdReg(x, y) => {
                let vy = self.get_reg(y);
                self.set_reg(x, vy);
            },
            InstructionData::Or(x, y) => {
                let v = self.get_reg(x) | self.get_reg(y);
                self.set_reg(x, v);
            },
            InstructionData::And(x, y) => {
                let v = self.get_reg(x) & self.get_reg(y);
                self.set_reg(x, v);
            },
            InstructionData::Xor(x, y) => {
                let v = self.get_reg(x) ^ self.get_reg(y);
                self.set_reg(x, v);
            },
            InstructionData::AddReg(x, y) => {
                let sum = self.get_reg(x) as u16 + self.get_reg(y) as u16;
                let carry: u8 = if sum > 0xFF {
                    1
                } else {
                    0
                };
                self.set_flagged(x, (sum % 256) as u8, carry);
            },
            InstructionData::SubReg(x, y) => {
                let (vx, vy) = (self.get_reg(x), self.get_reg(y));
                let no_borrow: u8 = if vx > vy {
                    1
                } else {
                    0
                };
                let diff = ((vx as u16 + 256 - vy as u16) % 256) as u8;
                self.set_flagged(x, diff, no_borrow);
            },
            InstructionData::Shr(x, _) => {
                let vx = self.get_reg(x);
                self.set_flagged(x, vx / 2, vx % 2);
            },
            InstructionData::SubN(x, y) => {
                let (vx, vy) = (self.get_reg(x), self.get_reg(y));
                let no_borrow: u8 = if vy > vx {
                    1
                } else {
                    0
                };
                let diff = ((vy as u16 + 256 - vx as u16) % 256) as u8;
                self.set_flagged(x, diff, no_borrow);
            },
            InstructionData::Shl(x, _) => {
                let vx = self.get_reg(x);
                self.set_flagged(x, ((vx as u16 * 2) % 256) as u8, vx / 128);
            },
            InstructionData::LdI(n) => self.i = n,
            InstructionData::JpV0(n) => {
                self.pc = ((self.get_reg(0) as u32 + n as u32) % 65536) as u16;
            },
            InstructionData::Rnd(x, n) => self.set_reg(x, random & n),
            InstructionData::Drw(x, y, n) => {
                let col = self.get_reg(x) as usize;
                let row = (self.get_reg(y) % 32) as usize;
                let bytes = bus.read_bytes(self.i, n as Address);
                let erased = bus.display_sprite((col, row), bytes.as_slice());
                self.set_reg(
                    0xF,
                    if erased {
                        1
                    } else {
                        0
                    },
                );
            },
            InstructionData::Skp(x) => {
                let vx = self.get_reg(x);
                let pressed = match bus.get_key_pressed() {
                    Some(key) => key == vx,
                    None => false,
                };
                self.skip_if(pressed);
            },
            InstructionData::Sknp(x) => {
                let vx = self.get_reg(x);
                let pressed = match bus.get_key_pressed() {
                    Some(key) => key == vx,
                    None => false,
                };
                self.skip_if(!pressed);
            },
            InstructionData::LdRegDt(x) => {
                let dt = self.delay_timer;
                self.set_reg(x, dt);
            },
            InstructionData::LdK(x) => match bus.get_key_pressed() {
                Some(key) => self.set_reg(x, key),
                None => self.pc = self.pc - 2,
            },
            InstructionData::LdDtReg(x) => self.delay_timer = self.get_reg(x),
            InstructionData::LdSt(x) => self.sound_timer = self.get_reg(x),
            InstructionData::AddI(x) => {
                self.i = ((self.i as u32 + self.get_reg(x) as u32) % 65536) as u16;
            },
            InstructionData::LdF(x) => self.i = self.get_reg(x) as u16 * 5,
            InstructionData::LdB(x) => {
                let v = self.get_reg(x);
                let digits = vec![v / 100, (v / 10) % 10, v % 10];
                assert(digits@ =~= bcd(v));
                bus.write_bytes(self.i, digits.as_slice());
            },
            InstructionData::LdIMem(x) => {
                let mut regs: Vec<u8> = Vec::new();
                let mut k: usize = 0;
                while k <= x as usize
                    invariant
                        x < REGISTERS_COUNT,
                        k <= x + 1,
                        regs@ == self@.v.subrange(0, k as int),
                    decreases x + 1 - k,
                {
                    regs.push(self.registers[k]);
                    k = k + 1;
                    assert(regs@ =~= self@.v.subrange(0, k as int));
                }
                bus.write_bytes(self.i, regs.as_slice());
            },
            InstructionData::LdVx(x) => {
                let bytes = bus.read_bytes(self.i, x as u16 + 1);
                let ghost before = self@;
                let mut k: usize = 0;
                assert(before.v =~= Seq::new(
                    before.v.len(),
                    |j: int|
                        if j < 0 {
                            bytes@[j]
                        } else {
                            before.v[j]
                        },
                ));
                while k <= x as usize
                    invariant
                        x < REGISTERS_COUNT,
                        k <= x + 1,
                        bytes@.len() == x + 1,
                        self@ == (CpuView {
                            v: Seq::new(
                                before.v.len(),
                                |j: int|
                                    if j < k {
                                        bytes@[j]
                                    } else {
                                        before.v[j]
                                    },
                            ),
                            ..before
                        }),
                    decreases x + 1 - k,
                {
                    proof {
                        use_type_invariant(&*self);
                    }
                    self.registers[k] = bytes[k];
                    k = k + 1;
                    assert(self@.v =~= Seq::new(
                        before.v.len(),
                        |j: int|
                            if j < k {
                                bytes@[j]
                            } else {
                                before.v[j]
                            },
                    ));
                }
                assert(self@.v =~= executed(before, old(bus)@, data, random).0.v);
            },
            InstructionData::Sys(_) | InstructionData::Unknown => {},
        }
        proof {
            (*bus).lemma_sizes();
        }
        self.pc
    }

    /// One fetch-decode-execute cycle, with `random` as the byte that `RND` draws;
    /// returns the new program counter.
    pub fn tick_with(&mut self, bus: &mut Bus, random: u8) -> (r: Address)
        requires
            tick_fault(old(self)@, old(bus)@) is None,
        ensures
            (final(self)@, final(bus)@) == ticked(old(self)@, old(bus)@, random),
            r == final(self)@.pc,
    {
        let instr = self.fetch(bus);
        let data = self.decode(instr);
        self.execute(data, bus, random)
    }

    /// One fetch-decode-execute cycle, drawing from the processor's random
    /// generator for `RND`; returns the new program counter.
    pub fn tick(&mut self, bus: &mut Bus) -> (r: Address)
        requires
            tick_fault(old(self)@, old(bus)@) is None,
        ensures
            exists|random: u8| (final(self)@, final(bus)@) == ticked(old(self)@, old(bus)@, random),
            r == final(self)@.pc,
    {
        // The handle is a copyable reference to this thread's generator.
        let mut rng = self.random_device;
        let random = (gen_range(&mut rng, 0, 256) % 256) as u8;
        self.tick_with(bus, random)
    }

    /// Counts both timers down by one, each stopping at zero.
    pub fn timer_decrement(&mut self)
        ensures
            final(self)@ == (CpuView {
                dt: if old(self)@.dt > 0 {
                    (old(self)@.dt - 1) as u8
                } else {
                    0
                },
                st: if old(self)@.st > 0 {
                    (old(self)@.st - 1) as u8
                } else {
                    0
                },
                ..old(self)@
            }),
    {
        proof {
            use_type_invariant(&*self);
        }
        if self.delay_timer > 0 {
            self.delay_timer = self.delay_timer - 1;
        }
        if self.sound_timer > 0 {
            self.sound_timer = self.sound_timer - 1;
        }
    }

    /// The fault that the next tick would meet, if any.
    pub fn next_fault(&self, bus: &Bus) -> (r: Option<Fault>)
        ensures
            r == tick_fault(self@, bus@),
    {
        proof {
            use_type_invariant(self);
            bus.lemma_sizes();
        }
        if self.pc as usize + 1 >= MEMORY_SIZE {
            return Some(Fault::AddressOutOfRange);
        }
        let d = decode_instruction(bus.read_instruction(self.pc));
        let i = self.i as usize;
        match d {
            InstructionData::Unknown => Some(Fault::IllegalInstruction),
            InstructionData::Ret => if self.sp == 0 {
                Some(Fault::StackUnderflow)
            } else {
                None
            },
            InstructionData::Call(_) => if self.sp as usize >= STACK_SIZE {
                Some(Fault::StackOverflow)
            } else {
                None
            },
            InstructionData::Drw(_, _, n) => if i + n as usize > MEMORY_SIZE {
                Some(Fault::AddressOutOfRange)
            } else {
                None
            },
            InstructionData::LdB(_) => if i + 3 > MEMORY_SIZE {
                Some(Fault::AddressOutOfRange)
            } else {
                None
            },
            InstructionData::LdIMem(x) | InstructionData::LdVx(x) => if i + x as usize + 1
                > MEMORY_SIZE {
                Some(Fault::AddressOutOfRange)
            } else {
                None
            },
            _ => None,
        }
    }
}

/// The bit operations on bytes that the flag rules use, as arithmetic.
proof fn lemma_byte_bits(vx: u8, s: u16)
    ensures
        s & 0xFF == s % 256,
        vx & 1 == vx % 2,
        vx >> 1u8 == vx / 2,
        (vx & 0x80) >> 7u8 == vx / 128,
        (vx << 1u8) & 0xFF == (vx as u16 * 2) % 256,
{
    assert(s & 0xFF == s % 256) by (bit_vector);
    assert(vx & 1 == vx % 2) by (bit_vector);
    assert(vx >> 1u8 == vx / 2) by (bit_vector);
    assert((vx & 0x80) >> 7u8 == vx / 128) by (bit_vector);
    assert((vx << 1u8) & 0xFF == (vx as u16 * 2) % 256) by (bit_vector);
}

#[verifier::rlimit(40)]
proof fn lemma_alu_add_reg(c: CpuView, b: BusView, x: u8, y: u8, kk: u8, random: u8)
    requires
        c.v.len() == REGISTERS_COUNT,
        x < 16,
        y < 16,
    ensures
        ({
            let n = executed(c, b, InstructionData::AddReg(x, y), random).0;
            let s = (c.v[x as int] + c.v[y as int]) as u16;
            &&& n.v[15] == (if s > 0xFF { 1u8 } else { 0u8 })
            &&& x != 15 ==> n.v[x as int] == s & 0xFF
        }),
{
    lemma_byte_bits(c.v[x as int], (c.v[x as int] + c.v[y as int]) as u16);
}

#[verifier::rlimit(40)]
proof fn lemma_alu_sub_reg(c: CpuView, b: BusView, x: u8, y: u8, kk: u8, random: u8)
    requires
        c.v.len() == REGISTERS_COUNT,
        x < 16,
        y < 16,
    ensures
        ({
            let n = executed(c, b, InstructionData::SubReg(x, y), random).0;
            let (vx, vy) = (c.v[x as int], c.v[y as int]);
            &&& n.v[15] == (if vx > vy { 1u8 } else { 0u8 })
            &&& x != 15 ==> n.v[x as int] == (vx - vy) % 256
        }),
{
    let (vx, vy) = (c.v[x as int], c.v[y as int]);
    let n = executed(c, b, InstructionData::SubReg(x, y), random).0;
    assert((vx - vy + 256) % 256 == (vx - vy) % 256);
}

#[verifier::rlimit(40)]
proof fn lemma_alu_subn(c: CpuView, b: BusView, x: u8, y: u8, kk: u8, random: u8)
    requires
        c.v.len() == REGISTERS_COUNT,
        x < 16,
        y < 16,
    ensures
        ({
            let n = executed(c, b, InstructionData::SubN(x, y), random).0;
            let (vx, vy) = (c.v[x as int], c.v[y as int]);
            &&& n.v[15] == (if vy > vx { 1u8 } else { 0u8 })
            &&& x != 15 ==> n.v[x as int] == (vy - vx) % 256
        }),
{
    let (vx, vy) = (c.v[x as int], c.v[y as int]);
    let n = executed(c, b, InstructionData::SubN(x, y), random).0;
    assert((vy - vx + 256) % 256 == (vy - vx) % 256);
}

#[verifier::rlimit(40)]
proof fn lemma_alu_shr(c: CpuView, b: BusView, x: u8, y: u8, kk: u8, random: u8)
    requires
        c.v.len() == REGISTERS_COUNT,
        x < 16,
        y < 16,
    ensures
        ({
            let n = executed(c, b, InstructionData::Shr(x, y), random).0;
            let vx = c.v[x as int];
            &&& n.v[15] == vx & 1
            &&& x != 15 ==> n.v[x as int] == vx >> 1u8
        }),
{
    lemma_byte_bits(c.v[x as int], (c.v[x as int] + c.v[y as int]) as u16);
}

#[verifier::rlimit(40)]
proof fn lemma_alu_shl(c: CpuView, b: BusView, x: u8, y: u8, kk: u8, random: u8)
    requires
        c.v.len() == REGISTERS_COUNT,
        x < 16,
        y < 16,
    ensures
        ({
            let n = executed(c, b, InstructionData::Shl(x, y), random).0;
            let vx = c.v[x as int];
            &&& n.v[15] == (vx & 0x80) >> 7u8
            &&& x != 15 ==> n.v[x as int] == (vx << 1u8) & 0xFF
        }),
{
    lemma_byte_bits(c.v[x as int], (c.v[x as int] + c.v[y as int]) as u16);
}

#[verifier::rlimit(40)]
proof fn lemma_alu_add_byte(c: CpuView, b: BusView, x: u8, y: u8, kk: u8, random: u8)
    requires
        c.v.len() == REGISTERS_COUNT,
        x < 16,
        y < 16,
    ensures
        ({
            let n = executed(c, b, InstructionData::Add(x, kk), random).0;
            &&& n.v[x as int] == (c.v[x as int] + kk) % 256
            &&& x != 15 ==> n.v[15] == c.v[15]
        }),
{
    lemma_byte_bits(c.v[x as int], (c.v[x as int] + c.v[y as int]) as u16);
}

#[verifier::rlimit(40)]
proof fn lemma_alu_or(c: CpuView, b: BusView, x: u8, y: u8, kk: u8, random: u8)
    requires
        c.v.len() == REGISTERS_COUNT,
        x < 16,
        y < 16,
    ensures
        executed(c, b, InstructionData::Or(x, y), random).0.v[x as int] == c.v[x as int]
            | c.v[y as int],
{
    lemma_byte_bits(c.v[x as int], (c.v[x as int] + c.v[y as int]) as u16);
}

#[verifier::rlimit(40)]
proof fn lemma_alu_and(c: CpuView, b: BusView, x: u8, y: u8, kk: u8, random: u8)
    requires
        c.v.len() == REGISTERS_COUNT,
        x < 16,
        y < 16,
    ensures
        executed(c, b, InstructionData::And(x, y), random).0.v[x as int] == c.v[x as int]
            & c.v[y as int],
{
    lemma_byte_bits(c.v[x as int], (c.v[x as int] + c.v[y as int]) as u16);
}

#[verifier::rlimit(40)]
proof fn lemma_alu_xor(c: CpuView, b: BusView, x: u8, y: u8, kk: u8, random: u8)
    requires
        c.v.len() == REGISTERS_COUNT,
        x < 16,
        y < 16,
    ensures
        executed(c, b, InstructionData::Xor(x, y), random).0.v[x as int] == c.v[x as int]
            ^ c.v[y as int],
{
    lemma_byte_bits(c.v[x as int], (c.v[x as int] + c.v[y as int]) as u16);
}

/// The arithmetic and logic operations leave a byte in `Vx` and set `VF` as
/// specified: the carry of `ADD Vx, Vy`, "no borrow" for `SUB` and `SUBN`, the bit
/// shifted out for `SHR` and `SHL`; `ADD Vx, kk`, `OR`, `AND` and `XOR` leave `VF`
/// alone (unless `x` is `F`).
pub proof fn lemma_alu(c: CpuView, b: BusView, x: u8, y: u8, kk: u8, random: u8)
    requires
        c.v.len() == REGISTERS_COUNT,
        x < 16,
        y < 16,
    ensures
        ({
            let n = executed(c, b, InstructionData::AddReg(x, y), random).0;
            let s = (c.v[x as int] + c.v[y as int]) as u16;
            &&& n.v[15] == (if s > 0xFF { 1u8 } else { 0u8 })
            &&& x != 15 ==> n.v[x as int] == s & 0xFF
        }),
        ({
            let n = executed(c, b, InstructionData::SubReg(x, y), random).0;
            let (vx, vy) = (c.v[x as int], c.v[y as int]);
            &&& n.v[15] == (if vx > vy { 1u8 } else { 0u8 })
            &&& x != 15 ==> n.v[x as int] == (vx - vy) % 256
        }),
        ({
            let n = executed(c, b, InstructionData::SubN(x, y), random).0;
            let (vx, vy) = (c.v[x as int], c.v[y as int]);
            &&& n.v[15] == (if vy > vx { 1u8 } else { 0u8 })
            &&& x != 15 ==> n.v[x as int] == (vy - vx) % 256
        }),
        ({
            let n = executed(c, b, InstructionData::Shr(x, y), random).0;
            let vx = c.v[x as int];
            &&& n.v[15] == vx & 1
            &&& x != 15 ==> n.v[x as int] == vx >> 1u8
        }),
        ({
            let n = executed(c, b, InstructionData::Shl(x, y), random).0;
            let vx = c.v[x as int];
            &&& n.v[15] == (vx & 0x80) >> 7u8
            &&& x != 15 ==> n.v[x as int] == (vx << 1u8) & 0xFF
        }),
        ({
            let n = executed(c, b, InstructionData::Add(x, kk), random).0;
            &&& n.v[x as int] == (c.v[x as int] + kk) % 256
            &&& x != 15 ==> n.v[15] == c.v[15]
        }),
        executed(c, b, InstructionData::Or(x, y), random).0.v[x as int] == c.v[x as int]
            | c.v[y as int],
        executed(c, b, InstructionData::And(x, y), random).0.v[x as int] == c.v[x as int]
            & c.v[y as int],
        executed(c, b, InstructionData::Xor(x, y), random).0.v[x as int] == c.v[x as int]
            ^ c.v[y as int],
{
    lemma_alu_add_reg(c, b, x, y, kk, random);
    lemma_alu_sub_reg(c, b, x, y, kk, random);
    lemma_alu_subn(c, b, x, y, kk, random);
    lemma_alu_shr(c, b, x, y, kk, random);
    lemma_alu_shl(c, b, x, y, kk, random);
    lemma_alu_add_byte(c, b, x, y, kk, random);
    lemma_alu_or(c, b, x, y, kk, random);
    lemma_alu_and(c, b, x, y, kk, random);
    lemma_alu_xor(c, b, x, y, kk, random);
}

/// After `SHR Vx` the flag is a single bit and `Vx` is its old value shifted right
/// by one (for `x` other than `F`).
pub proof fn lemma_shr(c: CpuView, b: BusView, x: u8, y: u8, random: u8)
    requires
        c.v.len() == REGISTERS_COUNT,
        x < 15,
    ensures
        ({
            let n = executed(c, b, InstructionData::Shr(x, y), random).0;
            &&& n.v[15] == 0 || n.v[15] == 1
            &&& n.v[x as int] == c.v[x as int] >> 1u8
        }),
{
    let vx = c.v[x as int];
    assert(vx >> 1u8 == vx / 2) by (bit_vector);
}

/// `LD B, Vx` writes three decimal digits at `I`, `I+1`, `I+2` that read back as
/// `Vx`, and nothing else.
pub proof fn lemma_bcd(c: CpuView, b: BusView, x: u8, random: u8)
    requires
        c.v.len() == REGISTERS_COUNT,
        b.ram.len() == MEMORY_SIZE,
        x < 16,
        c.i + 3 <= MEMORY_SIZE,
    ensures
        ({
            let ram = executed(c, b, InstructionData::LdB(x), random).1.ram;
            let (d0, d1, d2) = (ram[c.i as int], ram[c.i + 1], ram[c.i + 2]);
            &&& d0 < 10 && d1 < 10 && d2 < 10
            &&& 100 * d0 + 10 * d1 + d2 == c.v[x as int]
            &&& ram.len() == b.ram.len()
            &&& forall|a: int|
                0 <= a < ram.len() && !(c.i <= a < c.i + 3) ==> ram[a] == b.ram[a]
        }),
{
}

/// A `CALL` followed by the `RET` found at its target comes back to the
/// instruction after the call, with the stack pointer as it was.
pub proof fn lemma_call_then_ret(c: CpuView, b: BusView, r0: u8, r1: u8)
    requires
        c.stack.len() == STACK_SIZE,
        c.sp < STACK_SIZE,
        c.pc + 1 < MEMORY_SIZE,
        decoded(fetched(c, b)) is Call,
        ({
            let (c1, b1) = ticked(c, b, r0);
            &&& c1.pc + 1 < MEMORY_SIZE
            &&& decoded(fetched(c1, b1)) is Ret
        }),
    ensures
        ({
            let (c1, b1) = ticked(c, b, r0);
            let (c2, b2) = ticked(c1, b1, r1);
            &&& c2.pc == c.pc + 2
            &&& c2.sp == c.sp
            &&& c2.v == c.v
            &&& c2.i == c.i
            &&& b2 == b
        }),
{
}

/// Drawing over a dark screen sets `VF` to 0; drawing a sprite that lights a pixel
/// already lit sets `VF` to 1.
pub proof fn lemma_draw_flag(c: CpuView, b: BusView, x: u8, y: u8, n: u8, random: u8)
    requires
        c.v.len() == REGISTERS_COUNT,
        x < 16,
        y < 16,
    ensures
        (forall|j: int| 0 <= j < b.screen.len() ==> b.screen[j] == 0u64) ==> executed(
            c,
            b,
            InstructionData::Drw(x, y, n),
            random,
        ).0.v[15] == 0,
        ({
            let sprite = b.ram.subrange(c.i as int, c.i + n);
            let col = (c.v[x as int] % 64) as u64;
            let row = (c.v[y as int] % 32) as int;
            (exists|j: int, p: int|
                0 <= j < b.screen.len() && row <= j < row + sprite.len() && 0 <= p < 64 && #[trigger] lit(b.screen[j], p) && lit(sprite_mask(sprite[j - row], col), p)) ==> executed(
                c,
                b,
                InstructionData::Drw(x, y, n),
                random,
            ).0.v[15] == 1
        }),
{
    let sprite = b.ram.subrange(c.i as int, c.i + n);
    let col = (c.v[x as int] % 64) as u64;
    let row = (c.v[y as int] % 32) as int;
    lemma_dark_screen_no_collision(b.screen, col, row, sprite);
    lemma_shared_pixel_collides(b.screen, col, row, sprite);
}

} // verus!
