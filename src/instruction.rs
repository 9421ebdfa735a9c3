//! Instructions: the tagged operation that each 16-bit word stands for.

use vstd::prelude::*;

use crate::specs::{Address, Byte, Instruction, Nibble};

verus! {

/// One decoded instruction. Register operands are nibbles, `Byte` operands are
/// the low eight bits of the word and `Address` operands its low twelve bits.
#[derive(Debug, Clone, Copy, PartialEq, Eq, Structural)]
pub enum InstructionData {
    Sys(Address),
    Cls,
    Ret,
    Jp(Address),
    Call(Address),
    Se(Nibble, Byte),
    Sne(Nibble, Byte),
    SeReg(Nibble, Nibble),
    Ld(Nibble, Byte),
    Add(Nibble, Byte),
    LdReg(Nibble, Nibble),
    Or(Nibble, Nibble),
    And(Nibble, Nibble),
    Xor(Nibble, Nibble),
    AddReg(Nibble, Nibble),
    SubReg(Nibble, Nibble),
    Shr(Nibble, Nibble),
    SubN(Nibble, Nibble),
    Shl(Nibble, Nibble),
    SneReg(Nibble, Nibble),
    LdI(Address),
    JpV0(Address),
    Rnd(Nibble, Byte),
    Drw(Nibble, Nibble, Nibble),
    Skp(Nibble),
    Sknp(Nibble),
    LdRegDt(Nibble),
    LdK(Nibble),
    LdDtReg(Nibble),
    LdSt(Nibble),
    AddI(Nibble),
    LdF(Nibble),
    LdB(Nibble),
    LdIMem(Nibble),
    LdVx(Nibble),
    Unknown,
}

/// The operation that `w` encodes. With `nnn` its low twelve bits, `kk` its low
/// eight, `n` its low four, `x` bits 8 to 11 and `y` bits 4 to 7.
pub open spec fn decoded(w: u16) -> InstructionData {
    let x = ((w / 256) % 16) as u8;
    let y = ((w / 16) % 16) as u8;
    let nnn = (w % 4096) as u16;
    let kk = (w % 256) as u8;
    let n = (w % 16) as u8;
    let top = w / 4096;
    if top == 0 {
        if nnn == 0x0E0 {
            InstructionData::Cls
        } else if nnn == 0x0EE {
            InstructionData::Ret
        } else if nnn == 0 {
            InstructionData::Unknown
        } else {
            InstructionData::Sys(nnn)
        }
    } else if top == 1 {
        InstructionData::Jp(nnn)
    } else if top == 2 {
        InstructionData::Call(nnn)
    } else if top == 3 {
        InstructionData::Se(x, kk)
    } else if top == 4 {
        InstructionData::Sne(x, kk)
    } else if top == 5 {
        if n == 0 {
            InstructionData::SeReg(x, y)
        } else {
            InstructionData::Unknown
        }
    } else if top == 6 {
        InstructionData::Ld(x, kk)
    } else if top == 7 {
        InstructionData::Add(x, kk)
    } else if top == 8 {
        if n == 0 {
            InstructionData::LdReg(x, y)
        } else if n == 1 {
            InstructionData::Or(x, y)
        } else if n == 2 {
            InstructionData::And(x, y)
        } else if n == 3 {
            InstructionData::Xor(x, y)
        } else if n == 4 {
            InstructionData::AddReg(x, y)
        } else if n == 5 {
            InstructionData::SubReg(x, y)
        } else if n == 6 {
            InstructionData::Shr(x, y)
        } else if n == 7 {
            InstructionData::SubN(x, y)
        } else if n == 0xE {
            InstructionData::Shl(x, y)
        } else {
            InstructionData::Unknown
        }
    } else if top == 9 {
        if n == 0 {
            InstructionData::SneReg(x, y)
        } else {
            InstructionData::Unknown
        }
    } else if top == 0xA {
        InstructionData::LdI(nnn)
    } else if top == 0xB {
        InstructionData::JpV0(nnn)
    } else if top == 0xC {
        InstructionData::Rnd(x, kk)
    } else if top == 0xD {
        InstructionData::Drw(x, y, n)
    } else if top == 0xE {
        if kk == 0x9E {
            InstructionData::Skp(x)
        } else if kk == 0xA1 {
            InstructionData::Sknp(x)
        } else {
            InstructionData::Unknown
        }
    } else {
        if kk == 0x07 {
            InstructionData::LdRegDt(x)
        } else if kk == 0x0A {
            InstructionData::LdK(x)
        } else if kk == 0x15 {
            InstructionData::LdDtReg(x)
        } else if kk == 0x18 {
            InstructionData::LdSt(x)
        } else if kk == 0x1E {
            InstructionData::AddI(x)
        } else if kk == 0x29 {
            InstructionData::LdF(x)
        } else if kk == 0x33 {
            InstructionData::LdB(x)
        } else if kk == 0x55 {
            InstructionData::LdIMem(x)
        } else if kk == 0x65 {
            InstructionData::LdVx(x)
        } else {
            InstructionData::Unknown
        }
    }
}

/// Decodes one instruction word; encodings outside the table give `Unknown`.
pub fn decode_instruction(instruction: Instruction) -> (r: InstructionData)
    ensures
        r == decoded(instruction),
{
    let xw = (instruction & 0x0F00) >> 8;
    let yw = (instruction & 0x00F0) >> 4;
    let n = instruction & 0x0FFF;
    let top = (instruction & 0xF000) >> 12;
    assert((instruction & 0x0F00) >> 8 == (instruction / 256) % 16) by (bit_vector);
    assert((instruction & 0x00F0) >> 4 == (instruction / 16) % 16) by (bit_vector);
    assert(instruction & 0x0FFF == instruction % 4096) by (bit_vector);
    assert((instruction & 0xF000) >> 12 == instruction / 4096) by (bit_vector);
    let x = xw as Nibble;
    let y = yw as Nibble;
    let kk = truncate_2_bytes(n);
    let low = truncate_1_byte(n);
    match top {
        0x0 => {
            if n == 0x0E0 {
                InstructionData::Cls
            } else if n == 0x0EE {
                InstructionData::Ret
            } else if n == 0 {
                InstructionData::Unknown
            } else {
                InstructionData::Sys(n)
            }
        },
        0x1 => InstructionData::Jp(n),
        0x2 => InstructionData::Call(n),
        0x3 => InstructionData::Se(x, kk),
        0x4 => InstructionData::Sne(x, kk),
        0x5 => match low {
            0x0 => InstructionData::SeReg(x, y),
            _ => InstructionData::Unknown,
        },
        0x6 => InstructionData::Ld(x, kk),
        0x7 => InstructionData::Add(x, kk),
        0x8 => match low {
            0x0 => InstructionData::LdReg(x, y),
            0x1 => InstructionData::Or(x, y),
            0x2 => InstructionData::And(x, y),
            0x3 => InstructionData::Xor(x, y),
            0x4 => InstructionData::AddReg(x, y),
            0x5 => InstructionData::SubReg(x, y),
            0x6 => InstructionData::Shr(x, y),
            0x7 => InstructionData::SubN(x, y),
            0xE => InstructionData::Shl(x, y),
            _ => InstructionData::Unknown,
        },
        0x9 => match low {
            0x0 => InstructionData::SneReg(x, y),
            _ => InstructionData::Unknown,
        },
        0xA => InstructionData::LdI(n),
        0xB => InstructionData::JpV0(n),
        0xC => InstructionData::Rnd(x, kk),
        0xD => InstructionData::Drw(x, y, low),
        0xE => match kk {
            0x9E => InstructionData::Skp(x),
            0xA1 => InstructionData::Sknp(x),
            _ => InstructionData::Unknown,
        },
        _ => match kk {
            0x07 => InstructionData::LdRegDt(x),
            0x0A => InstructionData::LdK(x),
            0x15 => InstructionData::LdDtReg(x),
            0x18 => InstructionData::LdSt(x),
            0x1E => InstructionData::AddI(x),
            0x29 => InstructionData::LdF(x),
            0x33 => InstructionData::LdB(x),
            0x55 => InstructionData::LdIMem(x),
            0x65 => InstructionData::LdVx(x),
            _ => InstructionData::Unknown,
        },
    }
}

/// The low eight bits of `n`.
pub fn truncate_2_bytes(n: u16) -> (r: u8)
    ensures
        r == n % 256,
{
    assert(n & 0x00FF == n % 256) by (bit_vector);
    (n & 0x00FF) as u8
}

/// The low four bits of `n`.
pub fn truncate_1_byte(n: u16) -> (r: u8)
    ensures
        r == n % 16,
{
    assert(n & 0x000F == n % 16) by (bit_vector);
    (n & 0x000F) as u8
}

} // verus!
