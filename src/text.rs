//! Instructions as text: the mnemonic listing that the disassembler prints.

use vstd::prelude::*;

use crate::instruction::{decode_instruction, decoded, InstructionData};
use crate::memory::{words_of, ROM};

verus! {

/// The upper-case hexadecimal digit of `v` (below 16).
pub open spec fn hex_digit(v: int) -> char {
    seq!['0', '1', '2', '3', '4', '5', '6', '7', '8', '9', 'A', 'B', 'C', 'D', 'E', 'F'][v]
}

/// `name` padded with spaces to five characters.
pub open spec fn padded(name: Seq<char>) -> Seq<char> {
    name + Seq::new((5 - name.len()) as nat, |i: int| ' ')
}

/// A register operand: `V` and the digit of its low four bits.
pub open spec fn reg_text(x: u8) -> Seq<char> {
    seq!['V', hex_digit((x % 16) as int)]
}

/// A byte operand: `0x` and two digits.
pub open spec fn byte_text(k: u8) -> Seq<char> {
    seq!['0', 'x', hex_digit((k / 16) as int), hex_digit((k % 16) as int)]
}

/// An address operand: `0x` and the three digits of its low twelve bits.
pub open spec fn addr_text(a: u16) -> Seq<char> {
    seq!['0', 'x', hex_digit(((a / 256) % 16) as int), hex_digit(((a / 16) % 16) as int), hex_digit((a % 16) as int)]
}

/// A nibble operand: `0x` and the digit of its low four bits.
pub open spec fn nibble_text(n: u8) -> Seq<char> {
    seq!['0', 'x', hex_digit((n % 16) as int)]
}

/// A mnemonic with one operand.
pub open spec fn with1(name: Seq<char>, a: Seq<char>) -> Seq<char> {
    padded(name) + seq![' '] + a
}

/// A mnemonic with two operands.
pub open spec fn with2(name: Seq<char>, a: Seq<char>, b: Seq<char>) -> Seq<char> {
    with1(name, a) + seq![',', ' '] + b
}

/// A mnemonic with three operands.
pub open spec fn with3(name: Seq<char>, a: Seq<char>, b: Seq<char>, c: Seq<char>) -> Seq<char> {
    with2(name, a, b) + seq![',', ' '] + c
}

/// How an instruction is listed.
pub open spec fn text_of(d: InstructionData) -> Seq<char> {
    let (i, f, b, k, st, dt, mem) = (
        seq!['I'],
        seq!['F'],
        seq!['B'],
        seq!['K'],
        seq!['S', 'T'],
        seq!['D', 'T'],
        seq!['[', 'I', ']'],
    );
    let (ld, add, jp, se, sne) = (
        seq!['L', 'D'],
        seq!['A', 'D', 'D'],
        seq!['J', 'P'],
        seq!['S', 'E'],
        seq!['S', 'N', 'E'],
    );
    match d {
        InstructionData::Sys(n) => with1(seq!['S', 'Y', 'S'], addr_text(n)),
        InstructionData::Cls => padded(seq!['C', 'L', 'S']),
        InstructionData::Ret => padded(seq!['R', 'E', 'T']),
        InstructionData::Jp(n) => with1(jp, addr_text(n)),
        InstructionData::Call(n) => with1(seq!['C', 'A', 'L', 'L'], addr_text(n)),
        InstructionData::Se(x, kk) => with2(se, reg_text(x), byte_text(kk)),
        InstructionData::Sne(x, kk) => with2(sne, reg_text(x), byte_text(kk)),
        InstructionData::SeReg(x, y) => with2(se, reg_text(x), reg_text(y)),
        InstructionData::Ld(x, kk) => with2(ld, reg_text(x), byte_text(kk)),
        InstructionData::Add(x, kk) => with2(add, reg_text(x), byte_text(kk)),
        InstructionData::LdReg(x, y) => with2(ld, reg_text(x), reg_text(y)),
        InstructionData::Or(x, y) => with2(seq!['O', 'R'], reg_text(x), reg_text(y)),
        InstructionData::And(x, y) => with2(seq!['A', 'N', 'D'], reg_text(x), reg_text(y)),
        InstructionData::Xor(x, y) => with2(seq!['X', 'O', 'R'], reg_text(x), reg_text(y)),
        InstructionData::AddReg(x, y) => with2(add, reg_text(x), reg_text(y)),
        InstructionData::SubReg(x, y) => with2(seq!['S', 'U', 'B'], reg_text(x), reg_text(y)),
        InstructionData::Shr(x, y) => with2(seq!['S', 'H', 'R'], reg_text(x), reg_text(y)),
        InstructionData::SubN(x, y) => with2(seq!['S', 'U', 'B', 'N'], reg_text(x), reg_text(y)),
        InstructionData::Shl(x, y) => with2(seq!['S', 'H', 'L'], reg_text(x), reg_text(y)),
        InstructionData::SneReg(x, y) => with2(sne, reg_text(x), reg_text(y)),
        InstructionData::LdI(n) => with2(ld, i, addr_text(n)),
        InstructionData::JpV0(n) => with2(jp, reg_text(0), addr_text(n)),
        InstructionData::Rnd(x, kk) => with2(seq!['R', 'N', 'D'], reg_text(x), byte_text(kk)),
        InstructionData::Drw(x, y, n) => with3(
            seq!['D', 'R', 'W'],
            reg_text(x),
            reg_text(y),
            nibble_text(n),
        ),
        InstructionData::Skp(x) => with1(seq!['S', 'K', 'P'], reg_text(x)),
        InstructionData::Sknp(x) => with1(seq!['S', 'K', 'N', 'P'], reg_text(x)),
        InstructionData::LdRegDt(x) => with2(ld, reg_text(x), dt),
        InstructionData::LdK(x) => with2(ld, reg_text(x), k),
        InstructionData::LdDtReg(x) => with2(ld, dt, reg_text(x)),
        InstructionData::LdSt(x) => with2(ld, st, reg_text(x)),
        InstructionData::AddI(x) => with2(add, i, reg_text(x)),
        InstructionData::LdF(x) => with2(ld, f, reg_text(x)),
        InstructionData::LdB(x) => with2(ld, b, reg_text(x)),
        InstructionData::LdIMem(x) => with2(ld, mem, reg_text(x)),
        InstructionData::LdVx(x) => with2(ld, reg_text(x), mem),
        InstructionData::Unknown => Seq::new(14, |j: int| 'X'),
    }
}

fn hex_str(v: u8) -> (r: &'static str)
    requires
        v < 16,
    ensures
        r@ == seq![hex_digit(v as int)],
{
    proof {
        reveal_strlit("0");
        reveal_strlit("1");
        reveal_strlit("2");
        reveal_strlit("3");
        reveal_strlit("4");
        reveal_strlit("5");
        reveal_strlit("6");
        reveal_strlit("7");
        reveal_strlit("8");
        reveal_strlit("9");
        reveal_strlit("A");
        reveal_strlit("B");
        reveal_strlit("C");
        reveal_strlit("D");
        reveal_strlit("E");
        reveal_strlit("F");
    }
    match v {
        0 => "0",
        1 => "1",
        2 => "2",
        3 => "3",
        4 => "4",
        5 => "5",
        6 => "6",
        7 => "7",
        8 => "8",
        9 => "9",
        10 => "A",
        11 => "B",
        12 => "C",
        13 => "D",
        14 => "E",
        _ => "F",
    }
}

fn push_reg(s: &mut String, x: u8)
    ensures
        final(s)@ == old(s)@ + reg_text(x),
{
    proof {
        reveal_strlit("V");
    }
    s.append("V");
    s.append(hex_str(x % 16));
    assert(final(s)@ =~= old(s)@ + reg_text(x));
}

fn push_byte(s: &mut String, k: u8)
    ensures
        final(s)@ == old(s)@ + byte_text(k),
{
    proof {
        reveal_strlit("0x");
    }
    s.append("0x");
    s.append(hex_str(k / 16));
    s.append(hex_str(k % 16));
    assert(final(s)@ =~= old(s)@ + byte_text(k));
}

fn push_addr(s: &mut String, a: u16)
    ensures
        final(s)@ == old(s)@ + addr_text(a),
{
    proof {
        reveal_strlit("0x");
    }
    s.append("0x");
    s.append(hex_str(((a / 256) % 16) as u8));
    s.append(hex_str(((a / 16) % 16) as u8));
    s.append(hex_str((a % 16) as u8));
    assert(final(s)@ =~= old(s)@ + addr_text(a));
}

fn push_nibble(s: &mut String, n: u8)
    ensures
        final(s)@ == old(s)@ + nibble_text(n),
{
    proof {
        reveal_strlit("0x");
    }
    s.append("0x");
    s.append(hex_str(n % 16));
    assert(final(s)@ =~= old(s)@ + nibble_text(n));
}

/// Starts a line with `name`, padded to five characters.
fn field(name: &str) -> (r: String)
    requires
        name@.len() <= 5,
    ensures
        r@ == padded(name@),
{
    let mut r = String::from_str(name);
    let mut k = name.unicode_len();
    while k < 5
        invariant
            name@.len() <= k <= 5,
            r@ == name@ + Seq::new((k - name@.len()) as nat, |i: int| ' '),
        decreases 5 - k,
    {
        proof {
            reveal_strlit(" ");
        }
        r.append(" ");
        k = k + 1;
        assert(r@ =~= name@ + Seq::new((k - name@.len()) as nat, |i: int| ' '));
    }
    r
}

/// Separates two operands.
fn push_comma(s: &mut String)
    ensures
        final(s)@ == old(s)@ + seq![',', ' '],
{
    proof {
        reveal_strlit(", ");
    }
    s.append(", ");
}

/// Separates the mnemonic from its first operand.
fn push_space(s: &mut String)
    ensures
        final(s)@ == old(s)@ + seq![' '],
{
    proof {
        reveal_strlit(" ");
    }
    s.append(" ");
}

impl InstructionData {
    /// The listing of this instruction: the mnemonic padded to five characters,
    /// then its operands separated by commas; registers as `V` and a digit,
    /// bytes, addresses and nibbles in hexadecimal after `0x`.
    pub fn to_text(&self) -> (r: String)
        ensures
            r@ == text_of(*self),
    {
        proof {
            reveal_strlit("ADD");
            reveal_strlit("AND");
            reveal_strlit("B");
            reveal_strlit("CALL");
            reveal_strlit("CLS");
            reveal_strlit("DRW");
            reveal_strlit("DT");
            reveal_strlit("F");
            reveal_strlit("I");
            reveal_strlit("JP");
            reveal_strlit("K");
            reveal_strlit("LD");
            reveal_strlit("OR");
            reveal_strlit("RET");
            reveal_strlit("RND");
            reveal_strlit("SE");
            reveal_strlit("SHL");
            reveal_strlit("SHR");
            reveal_strlit("SKNP");
            reveal_strlit("SKP");
            reveal_strlit("SNE");
            reveal_strlit("ST");
            reveal_strlit("SUB");
            reveal_strlit("SUBN");
            reveal_strlit("SYS");
            reveal_strlit("XOR");
            reveal_strlit("XXXXXXXXXXXXXX");
            reveal_strlit("[I]");
        }
        let r = match *self {
            InstructionData::Sys(n) => {
                let mut s = field("SYS");
                push_space(&mut s);
                push_addr(&mut s, n);
                s
            },
            InstructionData::Cls => {
                let mut s = field("CLS");
                s
            },
            InstructionData::Ret => {
                let mut s = field("RET");
                s
            },
            InstructionData::Jp(n) => {
                let mut s = field("JP");
                push_space(&mut s);
                push_addr(&mut s, n);
                s
            },
            InstructionData::Call(n) => {
                let mut s = field("CALL");
                push_space(&mut s);
                push_addr(&mut s, n);
                s
            },
            InstructionData::Se(x, kk) => {
                let mut s = field("SE");
                push_space(&mut s);
                push_reg(&mut s, x);
                push_comma(&mut s);
                push_byte(&mut s, kk);
                s
            },
            InstructionData::Sne(x, kk) => {
                let mut s = field("SNE");
                push_space(&mut s);
                push_reg(&mut s, x);
                push_comma(&mut s);
                push_byte(&mut s, kk);
                s
            },
            InstructionData::SeReg(x, y) => {
                let mut s = field("SE");
                push_space(&mut s);
                push_reg(&mut s, x);
                push_comma(&mut s);
                push_reg(&mut s, y);
                s
            },
            InstructionData::Ld(x, kk) => {
                let mut s = field("LD");
                push_space(&mut s);
                push_reg(&mut s, x);
                push_comma(&mut s);
                push_byte(&mut s, kk);
                s
            },
            InstructionData::Add(x, kk) => {
                let mut s = field("ADD");
                push_space(&mut s);
                push_reg(&mut s, x);
                push_comma(&mut s);
                push_byte(&mut s, kk);
                s
            },
            InstructionData::LdReg(x, y) => {
                let mut s = field("LD");
                push_space(&mut s);
                push_reg(&mut s, x);
                push_comma(&mut s);
                push_reg(&mut s, y);
                s
            },
            InstructionData::Or(x, y) => {
                let mut s = field("OR");
                push_space(&mut s);
                push_reg(&mut s, x);
                push_comma(&mut s);
                push_reg(&mut s, y);
                s
            },
            InstructionData::And(x, y) => {
                let mut s = field("AND");
                push_space(&mut s);
                push_reg(&mut s, x);
                push_comma(&mut s);
                push_reg(&mut s, y);
                s
            },
            InstructionData::Xor(x, y) => {
                let mut s = field("XOR");
                push_space(&mut s);
                push_reg(&mut s, x);
                push_comma(&mut s);
                push_reg(&mut s, y);
                s
            },
            InstructionData::AddReg(x, y) => {
                let mut s = field("ADD");
                push_space(&mut s);
                push_reg(&mut s, x);
                push_comma(&mut s);
                push_reg(&mut s, y);
                s
            },
            InstructionData::SubReg(x, y) => {
                let mut s = field("SUB");
                push_space(&mut s);
                push_reg(&mut s, x);
                push_comma(&mut s);
                push_reg(&mut s, y);
                s
            },
            InstructionData::Shr(x, y) => {
                let mut s = field("SHR");
                push_space(&mut s);
                push_reg(&mut s, x);
                push_comma(&mut s);
                push_reg(&mut s, y);
                s
            },
            InstructionData::SubN(x, y) => {
                let mut s = field("SUBN");
                push_space(&mut s);
                push_reg(&mut s, x);
                push_comma(&mut s);
                push_reg(&mut s, y);
                s
            },
            InstructionData::Shl(x, y) => {
                let mut s = field("SHL");
                push_space(&mut s);
                push_reg(&mut s, x);
                push_comma(&mut s);
                push_reg(&mut s, y);
                s
            },
            InstructionData::SneReg(x, y) => {
                let mut s = field("SNE");
                push_space(&mut s);
                push_reg(&mut s, x);
                push_comma(&mut s);
                push_reg(&mut s, y);
                s
            },
            InstructionData::LdI(n) => {
                let mut s = field("LD");
                push_space(&mut s);
                s.append("I");
                push_comma(&mut s);
                push_addr(&mut s, n);
                s
            },
            InstructionData::JpV0(n) => {
                let mut s = field("JP");
                push_space(&mut s);
                push_reg(&mut s, 0);
                push_comma(&mut s);
                push_addr(&mut s, n);
                s
            },
            InstructionData::Rnd(x, kk) => {
                let mut s = field("RND");
                push_space(&mut s);
                push_reg(&mut s, x);
                push_comma(&mut s);
                push_byte(&mut s, kk);
                s
            },
            InstructionData::Drw(x, y, n) => {
                let mut s = field("DRW");
                push_space(&mut s);
                push_reg(&mut s, x);
                push_comma(&mut s);
                push_reg(&mut s, y);
                push_comma(&mut s);
                push_nibble(&mut s, n);
                s
            },
            InstructionData::Skp(x) => {
                let mut s = field("SKP");
                push_space(&mut s);
                push_reg(&mut s, x);
                s
            },
            InstructionData::Sknp(x) => {
                let mut s = field("SKNP");
                push_space(&mut s);
                push_reg(&mut s, x);
                s
            },
            InstructionData::LdRegDt(x) => {
                let mut s = field("LD");
                push_space(&mut s);
                push_reg(&mut s, x);
                push_comma(&mut s);
                s.append("DT");
                s
            },
            InstructionData::LdK(x) => {
                let mut s = field("LD");
                push_space(&mut s);
                push_reg(&mut s, x);
                push_comma(&mut s);
                s.append("K");
                s
            },
            InstructionData::LdDtReg(x) => {
                let mut s = field("LD");
                push_space(&mut s);
                s.append("DT");
                push_comma(&mut s);
                push_reg(&mut s, x);
                s
            },
            InstructionData::LdSt(x) => {
                let mut s = field("LD");
                push_space(&mut s);
                s.append("ST");
                push_comma(&mut s);
                push_reg(&mut s, x);
                s
            },
            InstructionData::AddI(x) => {
                let mut s = field("ADD");
                push_space(&mut s);
                s.append("I");
                push_comma(&mut s);
                push_reg(&mut s, x);
                s
            },
            InstructionData::LdF(x) => {
                let mut s = field("LD");
                push_space(&mut s);
                s.append("F");
                push_comma(&mut s);
                push_reg(&mut s, x);
                s
            },
            InstructionData::LdB(x) => {
                let mut s = field("LD");
                push_space(&mut s);
                s.append("B");
                push_comma(&mut s);
                push_reg(&mut s, x);
                s
            },
            InstructionData::LdIMem(x) => {
                let mut s = field("LD");
                push_space(&mut s);
                s.append("[I]");
                push_comma(&mut s);
                push_reg(&mut s, x);
                s
            },
            InstructionData::LdVx(x) => {
                let mut s = field("LD");
                push_space(&mut s);
                push_reg(&mut s, x);
                push_comma(&mut s);
                s.append("[I]");
                s
            },
            InstructionData::Unknown => String::from_str("XXXXXXXXXXXXXX"),
        };
        assert(r@ =~= text_of(*self));
        r
    }
}

/// The listing of a program image: one line per instruction word.
pub fn disassembly(rom: &ROM) -> (r: Vec<String>)
    ensures
        r.len() == words_of(rom@).len(),
        forall|k: int| 0 <= k < r.len() ==> #[trigger] r[k]@ == text_of(decoded(words_of(rom@)[k])),
{
    let words = rom.instructions();
    let mut r: Vec<String> = Vec::new();
    let mut k: usize = 0;
    while k < words.len()
        invariant
            words@ == words_of(rom@),
            k <= words.len(),
            r.len() == k,
            forall|j: int| 0 <= j < k ==> #[trigger] r[j]@ == text_of(decoded(words@[j])),
        decreases words.len() - k,
    {
        r.push(decode_instruction(words[k]).to_text());
        k = k + 1;
    }
    r
}

} // verus!
