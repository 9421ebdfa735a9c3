//! A minimal assembler: text lines of mnemonics and operands to bytecode.

use vstd::prelude::*;

use crate::instruction::{decoded, InstructionData};
use crate::specs::Address;
use crate::text::{addr_text, hex_digit, text_of};

verus! {

pub type Bytecode = Vec<u8>;

/// Why a source could not be assembled.
#[derive(Debug, Clone, Copy, PartialEq, Eq, Structural)]
pub enum AssemblerError {
    /// A line does not start with a mnemonic.
    ExpectedInstruction,
    /// An address operand is missing or is not a literal.
    ExpectedAddress,
}

impl AssemblerError {
    /// A sentence that describes the error.
    pub fn to_text(&self) -> (r: String)
        ensures
            r@ == (match *self {
                AssemblerError::ExpectedInstruction => "An expression was expected."@,
                AssemblerError::ExpectedAddress => "An address was expected."@,
            }),
    {
        match *self {
            AssemblerError::ExpectedInstruction => String::from_str("An expression was expected."),
            AssemblerError::ExpectedAddress => String::from_str("An address was expected."),
        }
    }
}

#[allow(non_camel_case_types, clippy::upper_case_acronyms)]
#[derive(Debug, Clone, Copy, PartialEq, Eq, Structural)]
pub enum Mnemonic {
    SYS,
    CLS,
    RET,
    JP,
    CALL,
    SE,
    SNE,
    LD,
    ADD,
    OR,
    AND,
    XOR,
    SUB,
    SHR,
    SUBN,
    SHL,
    RND,
    DRW,
    SKP,
    SKNP,
}

/// One word of a source line.
#[derive(Debug, Clone, Copy, PartialEq, Eq, Structural)]
pub enum Token {
    Instruction(Mnemonic),
    Literal(u16),
    Register(u8),
    RegisterF,
    RegisterI,
    DerefRegisterI,
    RegisterB,
    RegisterST,
    RegisterDT,
    Unknown,
}

/// What `str::to_lowercase` makes of a text.
pub uninterp spec fn lower_of(s: Seq<char>) -> Seq<char>;

/// The lower-case form of an ASCII character.
pub open spec fn ascii_lower(c: char) -> char {
    if 'A' <= c <= 'Z' {
        ((c as u32) + 32) as char
    } else {
        c
    }
}

/// Relies on str::to_lowercase: the Unicode lower-case mapping, which depends on
/// the text alone and maps each ASCII character to its ASCII lower case.
#[verifier::external_body]
fn lowercase(s: &str) -> (r: String)
    ensures
        r@ == lower_of(s@),
        (forall|i: int| 0 <= i < s@.len() ==> (s@[i] as u32) < 128) ==> r@ == s@.map_values(
            |c: char| ascii_lower(c),
        ),
{
    s.to_lowercase()
}

/// The characters that separate words.
pub open spec fn is_blank(c: char) -> bool {
    c == ' ' || c == '\t' || c == '\r'
}

/// The pieces of `s` between occurrences of `sep`, empty ones included.
pub open spec fn pieces(s: Seq<char>, sep: char) -> Seq<Seq<char>>
    decreases s.len(),
{
    if s.len() == 0 {
        seq![Seq::empty()]
    } else {
        let l = pieces(s.drop_last(), sep);
        if s.last() == sep {
            l.push(Seq::empty())
        } else {
            l.drop_last().push(l.last().push(s.last()))
        }
    }
}

/// The lines of `s`: the runs of characters between line feeds, empty ones included.
pub open spec fn lines(s: Seq<char>) -> Seq<Seq<char>> {
    pieces(s, '\n')
}

/// The words of `s`: its maximal runs of characters that are not blank, in order.
pub open spec fn words(s: Seq<char>) -> Seq<Seq<char>>
    decreases s.len(),
{
    if s.len() == 0 {
        Seq::empty()
    } else {
        let w = words(s.drop_last());
        if is_blank(s.last()) {
            w
        } else if s.len() >= 2 && !is_blank(s[s.len() - 2]) {
            w.drop_last().push(w.last().push(s.last()))
        } else {
            w.push(seq![s.last()])
        }
    }
}

/// Texts, each seen through `@`.
pub open spec fn views_of(v: Seq<&str>) -> Seq<Seq<char>> {
    v.map_values(|l: &str| l@)
}

/// Cuts `src` at each occurrence of `sep`.
pub fn split_at_char<'a>(src: &'a str, sep: char) -> (r: Vec<&'a str>)
    ensures
        views_of(r@) == pieces(src@, sep),
{
    let n = src.unicode_len();
    let mut out: Vec<&'a str> = Vec::new();
    let mut start: usize = 0;
    let mut i: usize = 0;
    assert(src@.take(0) =~= Seq::<char>::empty());
    assert(views_of(out@).push(src@.subrange(0, 0)) =~= seq![Seq::<char>::empty()]);
    while i < n
        invariant
            n == src@.len(),
            start <= i <= n,
            pieces(src@.take(i as int), sep) == views_of(out@).push(src@.subrange(start as int, i as int)),
        decreases n - i,
    {
        let c = src.get_char(i);
        let ghost prev = views_of(out@);
        let ghost old_start = start;
        assert(src@.take(i + 1).drop_last() =~= src@.take(i as int));
        if c == sep {
            out.push(src.substring_char(start, i));
            start = i + 1;
            assert(views_of(out@) =~= prev.push(src@.subrange(old_start as int, i as int)));
            assert(src@.subrange(start as int, i + 1) =~= Seq::<char>::empty());
        } else {
            assert(src@.subrange(start as int, i + 1) =~= src@.subrange(start as int, i as int).push(c));
        }
        i = i + 1;
    }
    let ghost prev = views_of(out@);
    out.push(src.substring_char(start, n));
    assert(views_of(out@) =~= prev.push(src@.subrange(start as int, n as int)));
    assert(src@.take(n as int) =~= src@);
    out
}

/// Cuts `line` into its words.
fn split_words<'a>(line: &'a str) -> (r: Vec<&'a str>)
    ensures
        views_of(r@) == words(line@),
{
    let n = line.unicode_len();
    let mut out: Vec<&'a str> = Vec::new();
    let mut start: usize = 0;
    let mut in_word = false;
    let mut i: usize = 0;
    assert(line@.take(0) =~= Seq::<char>::empty());
    while i < n
        invariant
            n == line@.len(),
            start <= i <= n,
            in_word ==> i >= 1 && start < i && !is_blank(line@[i - 1]),
            !in_word ==> i == 0 || is_blank(line@[i - 1]),
            in_word ==> words(line@.take(i as int)) == views_of(out@).push(
                line@.subrange(start as int, i as int),
            ),
            !in_word ==> words(line@.take(i as int)) == views_of(out@),
        decreases n - i,
    {
        let c = line.get_char(i);
        let ghost prev = views_of(out@);
        let ghost t = line@.take(i + 1);
        assert(t.drop_last() =~= line@.take(i as int));
        assert(t.last() == c);
        if i >= 1 {
            assert(t[t.len() - 2] == line@[i - 1]);
        }
        if c == ' ' || c == '\t' || c == '\r' {
            if in_word {
                out.push(line.substring_char(start, i));
                assert(views_of(out@) =~= prev.push(line@.subrange(start as int, i as int)));
                in_word = false;
            }
        } else {
            if in_word {
                assert(line@.subrange(start as int, i + 1) =~= line@.subrange(start as int, i as int).push(c));
            } else {
                start = i;
                in_word = true;
                assert(line@.subrange(start as int, i + 1) =~= seq![c]);
            }
        }
        i = i + 1;
    }
    assert(line@.take(n as int) =~= line@);
    if in_word {
        let ghost prev = views_of(out@);
        out.push(line.substring_char(start, n));
        assert(views_of(out@) =~= prev.push(line@.subrange(start as int, n as int)));
    }
    out
}

/// Whether two texts are equal.
pub fn same(a: &str, b: &str) -> (r: bool)
    ensures
        r == (a@ == b@),
{
    let n = a.unicode_len();
    if n != b.unicode_len() {
        return false;
    }
    let mut i: usize = 0;
    while i < n
        invariant
            n == a@.len() == b@.len(),
            i <= n,
            a@.subrange(0, i as int) == b@.subrange(0, i as int),
        decreases n - i,
    {
        if a.get_char(i) != b.get_char(i) {
            return false;
        }
        i = i + 1;
        assert(a@.subrange(0, i as int) =~= a@.subrange(0, i - 1).push(a@[i - 1]));
        assert(b@.subrange(0, i as int) =~= b@.subrange(0, i - 1).push(b@[i - 1]));
    }
    assert(a@ =~= a@.subrange(0, n as int));
    assert(b@ =~= b@.subrange(0, n as int));
    true
}

/// Whether `c` is a hexadecimal digit.
pub open spec fn is_hex(c: char) -> bool {
    ('0' <= c <= '9') || ('a' <= c <= 'f') || ('A' <= c <= 'F')
}

/// The value of the hexadecimal digit `c`.
pub open spec fn hex_val(c: char) -> nat {
    if '0' <= c <= '9' {
        (c as u32 - '0' as u32) as nat
    } else if 'a' <= c <= 'f' {
        (c as u32 - 'a' as u32 + 10) as nat
    } else {
        (c as u32 - 'A' as u32 + 10) as nat
    }
}

/// The value of the hexadecimal digits `d`, most significant first.
pub open spec fn hex_value(d: Seq<char>) -> nat
    decreases d.len(),
{
    if d.len() == 0 {
        0
    } else {
        hex_value(d.drop_last()) * 16 + hex_val(d.last())
    }
}

/// The number of hexadecimal digits in a row in `s` from position `k` on.
pub open spec fn hex_run(s: Seq<char>, k: int) -> nat
    decreases s.len() - k,
{
    if 0 <= k < s.len() && is_hex(s[k]) {
        1 + hex_run(s, k + 1)
    } else {
        0
    }
}

/// Whether a register name, `v` and a hexadecimal digit, starts at `i` in `lw`.
pub open spec fn register_at(lw: Seq<char>, i: int) -> bool {
    0 <= i && i + 1 < lw.len() && lw[i] == 'v' && is_hex(lw[i + 1])
}

/// Whether a literal, `0x` and a hexadecimal digit, starts at `i` in `lw`.
pub open spec fn literal_at(lw: Seq<char>, i: int) -> bool {
    0 <= i && i + 2 < lw.len() && lw[i] == '0' && lw[i + 1] == 'x' && is_hex(lw[i + 2])
}

/// Where the leftmost register name of `lw` starts.
pub open spec fn first_register(lw: Seq<char>) -> int {
    choose|i: int| register_at(lw, i) && forall|j: int| 0 <= j < i ==> !register_at(lw, j)
}

/// Where the leftmost literal of `lw` starts.
pub open spec fn first_literal(lw: Seq<char>) -> int {
    choose|i: int| literal_at(lw, i) && forall|j: int| 0 <= j < i ==> !literal_at(lw, j)
}

/// The token of the leftmost literal of `lw`, `0x` and the longest run of
/// hexadecimal digits after it, when there is one and its value fits in 16 bits.
pub open spec fn literal_token(lw: Seq<char>) -> Token {
    if exists|i: int| literal_at(lw, i) {
        let k = first_literal(lw) + 2;
        let v = hex_value(lw.subrange(k, k + hex_run(lw, k)));
        if v <= 0xFFFF {
            Token::Literal(v as u16)
        } else {
            Token::Unknown
        }
    } else {
        Token::Unknown
    }
}

/// The token that a lower-case word stands for: a keyword; else the register named
/// by its leftmost `v` and digit; else its leftmost literal; else `Unknown`.
#[verifier::opaque]
pub open spec fn token_of(lw: Seq<char>) -> Token {
    match keyword(lw) {
        Some(t) => t,
        None => if exists|i: int| register_at(lw, i) {
            Token::Register(hex_val(lw[first_register(lw) + 1]) as u8)
        } else {
            literal_token(lw)
        },
    }
}

fn hex_digit_value(c: char) -> (r: Option<u8>)
    ensures
        r == (if is_hex(c) {
            Some(hex_val(c) as u8)
        } else {
            None
        }),
{
    if '0' <= c && c <= '9' {
        Some((c as u32 - '0' as u32) as u8)
    } else if 'a' <= c && c <= 'f' {
        Some((c as u32 - 'a' as u32 + 10) as u8)
    } else if 'A' <= c && c <= 'F' {
        Some((c as u32 - 'A' as u32 + 10) as u8)
    } else {
        None
    }
}

/// The token of a lower-case keyword.
pub open spec fn keyword(lw: Seq<char>) -> Option<Token> {
    if lw == "ld"@ {
        Some(Token::Instruction(Mnemonic::LD))
    } else if lw == "sys"@ {
        Some(Token::Instruction(Mnemonic::SYS))
    } else if lw == "cls"@ {
        Some(Token::Instruction(Mnemonic::CLS))
    } else if lw == "ret"@ {
        Some(Token::Instruction(Mnemonic::RET))
    } else if lw == "jp"@ {
        Some(Token::Instruction(Mnemonic::JP))
    } else if lw == "call"@ {
        Some(Token::Instruction(Mnemonic::CALL))
    } else if lw == "se"@ {
        Some(Token::Instruction(Mnemonic::SE))
    } else if lw == "sne"@ {
        Some(Token::Instruction(Mnemonic::SNE))
    } else if lw == "add"@ {
        Some(Token::Instruction(Mnemonic::ADD))
    } else if lw == "or"@ {
        Some(Token::Instruction(Mnemonic::OR))
    } else if lw == "and"@ {
        Some(Token::Instruction(Mnemonic::AND))
    } else if lw == "xor"@ {
        Some(Token::Instruction(Mnemonic::XOR))
    } else if lw == "sub"@ {
        Some(Token::Instruction(Mnemonic::SUB))
    } else if lw == "shr"@ {
        Some(Token::Instruction(Mnemonic::SHR))
    } else if lw == "subn"@ {
        Some(Token::Instruction(Mnemonic::SUBN))
    } else if lw == "shl"@ {
        Some(Token::Instruction(Mnemonic::SHL))
    } else if lw == "rnd"@ {
        Some(Token::Instruction(Mnemonic::RND))
    } else if lw == "drw"@ {
        Some(Token::Instruction(Mnemonic::DRW))
    } else if lw == "skp"@ {
        Some(Token::Instruction(Mnemonic::SKP))
    } else if lw == "sknp"@ {
        Some(Token::Instruction(Mnemonic::SKNP))
    } else if lw == "i"@ {
        Some(Token::RegisterI)
    } else if lw == "f"@ {
        Some(Token::RegisterF)
    } else if lw == "[i]"@ {
        Some(Token::DerefRegisterI)
    } else if lw == "b"@ {
        Some(Token::RegisterB)
    } else if lw == "st"@ {
        Some(Token::RegisterST)
    } else if lw == "dt"@ {
        Some(Token::RegisterDT)
    } else {
        None
    }
}

fn keyword_of(lw: &str) -> (r: Option<Token>)
    ensures
        r == keyword(lw@),
{
    if same(lw, "ld") {
        Some(Token::Instruction(Mnemonic::LD))
    } else if same(lw, "sys") {
        Some(Token::Instruction(Mnemonic::SYS))
    } else if same(lw, "cls") {
        Some(Token::Instruction(Mnemonic::CLS))
    } else if same(lw, "ret") {
        Some(Token::Instruction(Mnemonic::RET))
    } else if same(lw, "jp") {
        Some(Token::Instruction(Mnemonic::JP))
    } else if same(lw, "call") {
        Some(Token::Instruction(Mnemonic::CALL))
    } else if same(lw, "se") {
        Some(Token::Instruction(Mnemonic::SE))
    } else if same(lw, "sne") {
        Some(Token::Instruction(Mnemonic::SNE))
    } else if same(lw, "add") {
        Some(Token::Instruction(Mnemonic::ADD))
    } else if same(lw, "or") {
        Some(Token::Instruction(Mnemonic::OR))
    } else if same(lw, "and") {
        Some(Token::Instruction(Mnemonic::AND))
    } else if same(lw, "xor") {
        Some(Token::Instruction(Mnemonic::XOR))
    } else if same(lw, "sub") {
        Some(Token::Instruction(Mnemonic::SUB))
    } else if same(lw, "shr") {
        Some(Token::Instruction(Mnemonic::SHR))
    } else if same(lw, "subn") {
        Some(Token::Instruction(Mnemonic::SUBN))
    } else if same(lw, "shl") {
        Some(Token::Instruction(Mnemonic::SHL))
    } else if same(lw, "rnd") {
        Some(Token::Instruction(Mnemonic::RND))
    } else if same(lw, "drw") {
        Some(Token::Instruction(Mnemonic::DRW))
    } else if same(lw, "skp") {
        Some(Token::Instruction(Mnemonic::SKP))
    } else if same(lw, "sknp") {
        Some(Token::Instruction(Mnemonic::SKNP))
    } else if same(lw, "i") {
        Some(Token::RegisterI)
    } else if same(lw, "f") {
        Some(Token::RegisterF)
    } else if same(lw, "[i]") {
        Some(Token::DerefRegisterI)
    } else if same(lw, "b") {
        Some(Token::RegisterB)
    } else if same(lw, "st") {
        Some(Token::RegisterST)
    } else if same(lw, "dt") {
        Some(Token::RegisterDT)
    } else {
        None
    }
}

/// The value of the run of hexadecimal digits of `lw` from `start` on, when it
/// fits in 16 bits.
fn hex_number(lw: &str, start: usize) -> (r: Option<u16>)
    requires
        start <= lw@.len(),
    ensures
        ({
            let v = hex_value(lw@.subrange(start as int, start + hex_run(lw@, start as int)));
            r == if v <= 0xFFFF {
                Some(v as u16)
            } else {
                None
            }
        }),
{
    let n = lw.unicode_len();
    let mut k = start;
    let mut value: u32 = 0;
    let mut big = false;
    let mut done = false;
    assert(lw@.subrange(start as int, start as int) =~= Seq::<char>::empty());
    while k < n && !done
        invariant
            n == lw@.len(),
            start <= k <= n,
            done ==> k < n && !is_hex(lw@[k as int]),
            hex_run(lw@, start as int) == (k - start) + hex_run(lw@, k as int),
            !big ==> value == hex_value(lw@.subrange(start as int, k as int)) && value <= 0xFFFF,
            big ==> hex_value(lw@.subrange(start as int, k as int)) > 0xFFFF,
        decreases n - k + (if done {
            0int
        } else {
            1int
        }),
    {
        match hex_digit_value(lw.get_char(k)) {
            Some(d) => {
                assert(lw@.subrange(start as int, k + 1).drop_last() =~= lw@.subrange(
                    start as int,
                    k as int,
                ));
                if !big {
                    value = value * 16 + d as u32;
                    if value > 0xFFFF {
                        big = true;
                    }
                }
                k = k + 1;
            },
            None => {
                done = true;
            },
        }
    }
    assert(hex_run(lw@, k as int) == 0);
    if big {
        None
    } else {
        Some(value as u16)
    }
}

/// The register named by the leftmost `v` and digit of `lw`, if any.
fn register_of(lw: &str) -> (r: Option<u8>)
    ensures
        r == (if exists|i: int| register_at(lw@, i) {
            Some(hex_val(lw@[first_register(lw@) + 1]) as u8)
        } else {
            None
        }),
{
    let n = lw.unicode_len();
    let mut i: usize = 0;
    while i < n && i + 1 < n
        invariant
            n == lw@.len(),
            i <= n,
            forall|j: int| 0 <= j < i ==> !register_at(lw@, j),
        decreases n - i,
    {
        if lw.get_char(i) == 'v' {
            if let Some(d) = hex_digit_value(lw.get_char(i + 1)) {
                assert(register_at(lw@, i as int));
                let ghost f = first_register(lw@);
                assert(f == i);
                return Some(d);
            }
        }
        i = i + 1;
    }
    assert(forall|j: int| !register_at(lw@, j));
    None
}

/// The token of the leftmost literal of `lw`.
fn literal_of(lw: &str) -> (t: Token)
    ensures
        t == literal_token(lw@),
{
    let n = lw.unicode_len();
    let mut i: usize = 0;
    while i < n && i + 1 < n && i + 2 < n
        invariant
            n == lw@.len(),
            i <= n,
            forall|j: int| 0 <= j < i ==> !literal_at(lw@, j),
        decreases n - i,
    {
        if lw.get_char(i) == '0' && lw.get_char(i + 1) == 'x' && hex_digit_value(
            lw.get_char(i + 2),
        ).is_some() {
            assert(literal_at(lw@, i as int));
            let ghost f = first_literal(lw@);
            assert(f == i);
            return match hex_number(lw, i + 2) {
                Some(v) => Token::Literal(v),
                None => Token::Unknown,
            };
        }
        i = i + 1;
    }
    assert(forall|j: int| !literal_at(lw@, j));
    Token::Unknown
}

/// The token that the lower-case word `lw` stands for.
pub fn token_of_folded(lw: &str) -> (t: Token)
    ensures
        t == token_of(lw@),
{
    reveal(token_of);
    if let Some(t) = keyword_of(lw) {
        return t;
    }
    if let Some(x) = register_of(lw) {
        return Token::Register(x);
    }
    literal_of(lw)
}

/// Relies on `lowercase`: the token that `word` stands for, whatever its case.
fn word_to_token(word: &str) -> (t: Token)
    ensures
        t == token_of(folded(word@, false)),
        is_ascii_text(word@) ==> t == token_of(folded(word@, true)),
{
    let lw = lowercase(word);
    token_of_folded(lw.as_str())
}

/// The big-endian bytes of `w`.
pub open spec fn be_bytes(w: int) -> Seq<u8> {
    seq![(w / 256) as u8, (w % 256) as u8]
}

/// The address operand of a line: its second token, a literal, cut to 12 bits.
pub open spec fn address_operand(toks: Seq<Token>) -> Result<u16, AssemblerError> {
    if toks.len() < 2 {
        Err(AssemblerError::ExpectedAddress)
    } else {
        match toks[1] {
            Token::Literal(l) => Ok((l % 4096) as u16),
            _ => Err(AssemblerError::ExpectedAddress),
        }
    }
}

/// `address_operand` with `base` added to the address, as big-endian bytes.
pub open spec fn with_address(toks: Seq<Token>, base: int) -> Result<Seq<u8>, AssemblerError> {
    match address_operand(toks) {
        Ok(a) => Ok(be_bytes(base + a)),
        Err(e) => Err(e),
    }
}

/// The bytecode of a line of tokens: `CLS`, `RET`, `SYS nnn`, `JP nnn` and
/// `CALL nnn` are encoded, other mnemonics give no bytes, and a line that does not
/// start with a mnemonic is an error.
pub open spec fn code_of(toks: Seq<Token>) -> Result<Seq<u8>, AssemblerError> {
    match toks[0] {
        Token::Instruction(m) => match m {
            Mnemonic::RET => Ok(be_bytes(0x00EE)),
            Mnemonic::CLS => Ok(be_bytes(0x00E0)),
            Mnemonic::SYS => with_address(toks, 0),
            Mnemonic::JP => with_address(toks, 0x1000),
            Mnemonic::CALL => with_address(toks, 0x2000),
            _ => Ok(Seq::empty()),
        },
        _ => Err(AssemblerError::ExpectedInstruction),
    }
}

/// Whether every character of `s` is ASCII.
pub open spec fn is_ascii_text(s: Seq<char>) -> bool {
    forall|i: int| 0 <= i < s.len() ==> (s[i] as u32) < 128
}

/// A word in lower case: as `str::to_lowercase` makes it, or, for ASCII text,
/// with each ASCII letter lowered.
pub open spec fn folded(w: Seq<char>, ascii: bool) -> Seq<char> {
    if ascii {
        fold_ascii(w)
    } else {
        lower_of(w)
    }
}

/// The bytecode of one source line, its words folded as `ascii` says; a line
/// without words gives none.
pub open spec fn line_code(line: Seq<char>, ascii: bool) -> Result<Seq<u8>, AssemblerError> {
    let ws = words(line);
    if ws.len() == 0 {
        Ok(Seq::empty())
    } else {
        code_of(ws.map_values(|w: Seq<char>| token_of(folded(w, ascii))))
    }
}

/// The bytecode of lines, in order, or the error of the first line that fails.
pub open spec fn assemble_lines(ls: Seq<Seq<char>>, ascii: bool) -> Result<Seq<u8>, AssemblerError>
    decreases ls.len(),
{
    if ls.len() == 0 {
        Ok(Seq::empty())
    } else {
        match assemble_lines(ls.drop_last(), ascii) {
            Err(e) => Err(e),
            Ok(b) => match line_code(ls.last(), ascii) {
                Err(e) => Err(e),
                Ok(c) => Ok(b + c),
            },
        }
    }
}

/// The bytecode of a source text.
pub open spec fn assembled(source: Seq<char>) -> Result<Seq<u8>, AssemblerError> {
    assemble_lines(lines(source), false)
}

/// The bytecode of an ASCII source text: as `assembled`, with ASCII case folding.
pub open spec fn assembled_ascii(source: Seq<char>) -> Result<Seq<u8>, AssemblerError> {
    assemble_lines(lines(source), true)
}

/// A result on `Vec` seen as one on `Seq`.
pub open spec fn result_view(r: Result<Bytecode, AssemblerError>) -> Result<Seq<u8>, AssemblerError> {
    match r {
        Ok(b) => Ok(b@),
        Err(e) => Err(e),
    }
}

proof fn lemma_error_stays(ls: Seq<Seq<char>>, k: int, e: AssemblerError, ascii: bool)
    requires
        0 <= k <= ls.len(),
        assemble_lines(ls.take(k), ascii) == Err::<Seq<u8>, AssemblerError>(e),
    ensures
        assemble_lines(ls, ascii) == Err::<Seq<u8>, AssemblerError>(e),
    decreases ls.len() - k,
{
    if k < ls.len() {
        assert(ls.take(k + 1).drop_last() =~= ls.take(k));
        lemma_error_stays(ls, k + 1, e, ascii);
    } else {
        assert(ls.take(k) =~= ls);
    }
}

/// The address operand of `tokens`.
fn fetch_addr(tokens: &[Token]) -> (r: Result<Address, AssemblerError>)
    ensures
        r == address_operand(tokens@),
{
    if tokens.len() < 2 {
        return Err(AssemblerError::ExpectedAddress);
    }
    match tokens[1] {
        Token::Literal(lit) => {
            assert(lit & 0x0FFF == lit % 4096) by (bit_vector);
            Ok(lit & 0x0FFF)
        },
        _ => Err(AssemblerError::ExpectedAddress),
    }
}

fn push_bytes(bytes: &mut Bytecode, value: u16)
    ensures
        final(bytes)@ == old(bytes)@ + be_bytes(value as int),
{
    bytes.push((value / 256) as u8);
    bytes.push((value % 256) as u8);
    assert(final(bytes)@ =~= old(bytes)@ + be_bytes(value as int));
}

/// The bytecode of one line of tokens.
pub fn tokens_to_bytecode(tokens: &[Token]) -> (r: Result<Bytecode, AssemblerError>)
    requires
        tokens@.len() >= 1,
    ensures
        result_view(r) == code_of(tokens@),
{
    let mut bytes = Bytecode::new();
    match tokens[0] {
        Token::Instruction(mnem) => {
            match mnem {
                Mnemonic::RET => push_bytes(&mut bytes, 0x00EE),
                Mnemonic::CLS => push_bytes(&mut bytes, 0x00E0),
                Mnemonic::SYS => {
                    let addr = fetch_addr(tokens)?;
                    push_bytes(&mut bytes, addr);
                },
                Mnemonic::JP => {
                    let addr = fetch_addr(tokens)?;
                    push_bytes(&mut bytes, addr + 0x1000);
                },
                Mnemonic::CALL => {
                    let addr = fetch_addr(tokens)?;
                    push_bytes(&mut bytes, addr + 0x2000);
                },
                _ => {},
            }
            assert(bytes@ =~= code_of(tokens@)->Ok_0);
            Ok(bytes)
        },
        _ => Err(AssemblerError::ExpectedInstruction),
    }
}

/// The bytecode of one source line.
fn line_to_bytecode(line: &str) -> (r: Result<Bytecode, AssemblerError>)
    ensures
        result_view(r) == line_code(line@, false),
        is_ascii_text(line@) ==> result_view(r) == line_code(line@, true),
{
    let ws = split_words(line);
    if ws.len() == 0 {
        return Ok(Bytecode::new());
    }
    proof {
        lemma_words_ascii(line@);
    }
    let mut toks: Vec<Token> = Vec::new();
    let mut k: usize = 0;
    while k < ws.len()
        invariant
            views_of(ws@) == words(line@),
            is_ascii_text(line@) ==> forall|j: int|
                0 <= j < words(line@).len() ==> is_ascii_text(#[trigger] words(line@)[j]),
            k <= ws@.len(),
            toks@ == words(line@).take(k as int).map_values(
                |w: Seq<char>| token_of(folded(w, false)),
            ),
            is_ascii_text(line@) ==> toks@ == words(line@).take(k as int).map_values(
                |w: Seq<char>| token_of(folded(w, true)),
            ),
        decreases ws@.len() - k,
    {
        assert(views_of(ws@)[k as int] == ws@[k as int]@);
        let t = word_to_token(ws[k]);
        toks.push(t);
        k = k + 1;
        assert(toks@ =~= words(line@).take(k as int).map_values(
            |w: Seq<char>| token_of(folded(w, false)),
        ));
        proof {
            if is_ascii_text(line@) {
                assert(toks@ =~= words(line@).take(k as int).map_values(
                    |w: Seq<char>| token_of(folded(w, true)),
                ));
            }
        }
    }
    assert(words(line@).take(k as int) =~= words(line@));
    tokens_to_bytecode(toks.as_slice())
}

/// Assembles `source`: each line holds a mnemonic and its operands separated by
/// blanks; the bytes of the lines are laid end to end. On ASCII text, case folding
/// is ASCII case folding.
pub fn source_to_bytecode(source: &str) -> (r: Result<Bytecode, AssemblerError>)
    ensures
        result_view(r) == assembled(source@),
        is_ascii_text(source@) ==> result_view(r) == assembled_ascii(source@),
{
    let ls = split_at_char(source, '\n');
    proof {
        lemma_pieces_ascii(source@, '\n');
    }
    let mut bytecode = Bytecode::new();
    let mut k: usize = 0;
    assert(views_of(ls@).take(0) =~= Seq::<Seq<char>>::empty());
    while k < ls.len()
        invariant
            views_of(ls@) == lines(source@),
            is_ascii_text(source@) ==> forall|j: int|
                0 <= j < lines(source@).len() ==> is_ascii_text(#[trigger] lines(source@)[j]),
            k <= ls@.len(),
            assemble_lines(views_of(ls@).take(k as int), false) == Ok::<Seq<u8>, AssemblerError>(
                bytecode@,
            ),
            is_ascii_text(source@) ==> assemble_lines(views_of(ls@).take(k as int), true) == Ok::<
                Seq<u8>,
                AssemblerError,
            >(bytecode@),
        decreases ls@.len() - k,
    {
        let ghost prefix = views_of(ls@).take(k as int);
        let ghost next = views_of(ls@).take(k + 1);
        assert(next.drop_last() =~= prefix);
        assert(next.last() == ls@[k as int]@);
        assert(views_of(ls@)[k as int] == ls@[k as int]@);
        match line_to_bytecode(ls[k]) {
            Ok(code) => {
                let ghost before = bytecode@;
                let mut code = code;
                bytecode.append(&mut code);
                assert(bytecode@ =~= before + line_code(ls@[k as int]@, false)->Ok_0);
                proof {
                    if is_ascii_text(source@) {
                        assert(bytecode@ =~= before + line_code(ls@[k as int]@, true)->Ok_0);
                    }
                }
            },
            Err(e) => {
                proof {
                    lemma_error_stays(views_of(ls@), k + 1, e, false);
                    if is_ascii_text(source@) {
                        lemma_error_stays(views_of(ls@), k + 1, e, true);
                    }
                }
                return Err(e);
            },
        }
        k = k + 1;
    }
    assert(views_of(ls@).take(k as int) =~= views_of(ls@));
    Ok(bytecode)
}

proof fn lemma_pieces_len(s: Seq<char>, sep: char)
    ensures
        pieces(s, sep).len() >= 1,
    decreases s.len(),
{
    if s.len() > 0 {
        lemma_pieces_len(s.drop_last(), sep);
    }
}

proof fn lemma_pieces_ascii(s: Seq<char>, sep: char)
    ensures
        is_ascii_text(s) ==> forall|j: int|
            0 <= j < pieces(s, sep).len() ==> is_ascii_text(#[trigger] pieces(s, sep)[j]),
    decreases s.len(),
{
    if s.len() > 0 {
        lemma_pieces_ascii(s.drop_last(), sep);
        lemma_pieces_len(s.drop_last(), sep);
        if is_ascii_text(s) {
            assert(is_ascii_text(s.drop_last()));
            let l = pieces(s.drop_last(), sep);
            if s.last() != sep {
                assert(is_ascii_text(l.last().push(s.last())));
            } else {
                assert(is_ascii_text(Seq::<char>::empty()));
            }
        }
    } else {
        assert(is_ascii_text(Seq::<char>::empty()));
    }
}

proof fn lemma_words_ascii(s: Seq<char>)
    ensures
        is_ascii_text(s) ==> forall|j: int|
            0 <= j < words(s).len() ==> is_ascii_text(#[trigger] words(s)[j]),
    decreases s.len(),
{
    if s.len() > 0 {
        lemma_words_ascii(s.drop_last());
        if is_ascii_text(s) {
            assert(is_ascii_text(s.drop_last()));
            let w = words(s.drop_last());
            if !is_blank(s.last()) {
                if s.len() >= 2 && !is_blank(s[s.len() - 2]) {
                    if w.len() > 0 {
                        assert(is_ascii_text(w.last().push(s.last())));
                    }
                } else {
                    assert(is_ascii_text(seq![s.last()]));
                }
            }
        }
    }
}

/// `s` with its ASCII letters in lower case.
pub open spec fn fold_ascii(s: Seq<char>) -> Seq<char> {
    s.map_values(|c: char| ascii_lower(c))
}

proof fn lemma_lines_single(s: Seq<char>)
    requires
        forall|i: int| 0 <= i < s.len() ==> s[i] != '\n',
    ensures
        lines(s) == seq![s],
    decreases s.len(),
{
    if s.len() > 0 {
        lemma_lines_single(s.drop_last());
        assert(lines(s.drop_last()) == pieces(s.drop_last(), '\n'));
        assert(s.drop_last().push(s.last()) =~= s);
    } else {
        assert(s =~= Seq::<char>::empty());
    }
}

proof fn lemma_words_run(s: Seq<char>)
    requires
        s.len() >= 1,
        forall|i: int| 0 <= i < s.len() ==> !is_blank(s[i]),
    ensures
        words(s) == seq![s],
    decreases s.len(),
{
    if s.len() == 1 {
        assert(s.drop_last() =~= Seq::<char>::empty());
        assert(words(s.drop_last()) == Seq::<Seq<char>>::empty());
        assert(seq![s.last()] =~= s);
        assert(Seq::<Seq<char>>::empty().push(s) =~= seq![s]);
    } else {
        lemma_words_run(s.drop_last());
        assert(s.drop_last().push(s.last()) =~= s);
        assert(seq![s.drop_last()].drop_last().push(s) =~= seq![s]);
    }
}

proof fn lemma_words_blank_tail(s: Seq<char>, t: Seq<char>)
    requires
        forall|i: int| 0 <= i < t.len() ==> is_blank(t[i]),
    ensures
        words(s + t) == words(s),
    decreases t.len(),
{
    if t.len() == 0 {
        assert(s + t =~= s);
    } else {
        assert((s + t).drop_last() =~= s + t.drop_last());
        lemma_words_blank_tail(s, t.drop_last());
    }
}

proof fn lemma_words_two(a: Seq<char>, t: Seq<char>, b: Seq<char>)
    requires
        a.len() >= 1,
        t.len() >= 1,
        b.len() >= 1,
        forall|i: int| 0 <= i < a.len() ==> !is_blank(a[i]),
        forall|i: int| 0 <= i < t.len() ==> is_blank(t[i]),
        forall|i: int| 0 <= i < b.len() ==> !is_blank(b[i]),
    ensures
        words(a + t + b) == seq![a, b],
    decreases b.len(),
{
    let x = a + t + b;
    if b.len() == 1 {
        assert(x.drop_last() =~= a + t);
        lemma_words_blank_tail(a, t);
        lemma_words_run(a);
        assert(x[x.len() - 2] == t.last());
        assert(seq![x.last()] =~= b);
    } else {
        assert(x.drop_last() =~= a + t + b.drop_last());
        lemma_words_two(a, t, b.drop_last());
        assert(x[x.len() - 2] == b[b.len() - 2]);
        assert(b.drop_last().push(b.last()) =~= b);
        assert(seq![a, b.drop_last()].drop_last().push(b) =~= seq![a, b]);
    }
}

proof fn lemma_hex_digit_folds(v: int)
    requires
        0 <= v < 16,
    ensures
        is_hex(ascii_lower(hex_digit(v))),
        hex_val(ascii_lower(hex_digit(v))) == v,
        ascii_lower(hex_digit(v)) != 'v',
        !is_blank(hex_digit(v)),
        hex_digit(v) != '\n',
{
}

proof fn lemma_no_long_keyword(lw: Seq<char>)
    requires
        lw.len() > 4,
    ensures
        keyword(lw) is None,
{
    reveal_strlit("ld");
    reveal_strlit("sys");
    reveal_strlit("cls");
    reveal_strlit("ret");
    reveal_strlit("jp");
    reveal_strlit("call");
    reveal_strlit("se");
    reveal_strlit("sne");
    reveal_strlit("add");
    reveal_strlit("or");
    reveal_strlit("and");
    reveal_strlit("xor");
    reveal_strlit("sub");
    reveal_strlit("shr");
    reveal_strlit("subn");
    reveal_strlit("shl");
    reveal_strlit("rnd");
    reveal_strlit("drw");
    reveal_strlit("skp");
    reveal_strlit("sknp");
    reveal_strlit("i");
    reveal_strlit("f");
    reveal_strlit("[i]");
    reveal_strlit("b");
    reveal_strlit("st");
    reveal_strlit("dt");
}

proof fn lemma_mnemonic_tokens()
    ensures
        token_of("sys"@) == Token::Instruction(Mnemonic::SYS),
        token_of("cls"@) == Token::Instruction(Mnemonic::CLS),
        token_of("ret"@) == Token::Instruction(Mnemonic::RET),
        token_of("jp"@) == Token::Instruction(Mnemonic::JP),
        token_of("call"@) == Token::Instruction(Mnemonic::CALL),
{
    reveal_strlit("ld");
    reveal_strlit("sys");
    reveal_strlit("cls");
    reveal_strlit("ret");
    reveal_strlit("jp");
    reveal_strlit("call");
    assert("ld"@.len() == 2 && "sys"@.len() == 3 && "cls"@.len() == 3 && "ret"@.len() == 3);
    assert("jp"@.len() == 2 && "call"@.len() == 4);
    assert("sys"@ != "ld"@);
    assert("cls"@ != "ld"@);
    assert("cls"@ != "sys"@) by {
        assert("cls"@[0] != "sys"@[0]);
    };
    assert("ret"@ != "ld"@);
    assert("ret"@ != "sys"@) by {
        assert("ret"@[0] != "sys"@[0]);
    };
    assert("ret"@ != "cls"@) by {
        assert("ret"@[0] != "cls"@[0]);
    };
    assert("jp"@ != "ld"@) by {
        assert("jp"@[0] != "ld"@[0]);
    };
    assert("jp"@ != "sys"@);
    assert("jp"@ != "cls"@);
    assert("jp"@ != "ret"@);
    assert("call"@ != "ld"@);
    assert("call"@ != "sys"@);
    assert("call"@ != "cls"@);
    assert("call"@ != "ret"@);
    assert("call"@ != "jp"@);
    reveal(token_of);
    assert(keyword("sys"@) == Some(Token::Instruction(Mnemonic::SYS)));
    assert(keyword("cls"@) == Some(Token::Instruction(Mnemonic::CLS)));
    assert(keyword("ret"@) == Some(Token::Instruction(Mnemonic::RET)));
    assert(keyword("jp"@) == Some(Token::Instruction(Mnemonic::JP)));
    assert(keyword("call"@) == Some(Token::Instruction(Mnemonic::CALL)));
}

#[verifier::rlimit(50)]
proof fn lemma_address_token(n: u16)
    requires
        n < 4096,
    ensures
        token_of(fold_ascii(addr_text(n))) == Token::Literal(n),
        forall|i: int| 0 <= i < addr_text(n).len() ==> !is_blank(addr_text(n)[i]) && addr_text(n)[i] != '\n',
{
    let (d2, d1, d0) = (((n / 256) % 16) as int, ((n / 16) % 16) as int, (n % 16) as int);
    lemma_hex_digit_folds(d2);
    lemma_hex_digit_folds(d1);
    lemma_hex_digit_folds(d0);
    let lw = fold_ascii(addr_text(n));
    assert(lw =~= seq!['0', 'x', ascii_lower(hex_digit(d2)), ascii_lower(hex_digit(d1)), ascii_lower(hex_digit(d0))]);
    reveal(token_of);
    lemma_no_long_keyword(lw);
    assert(forall|i: int| !register_at(lw, i));
    assert(literal_at(lw, 0));
    assert(first_literal(lw) == 0);
    assert(hex_run(lw, 5) == 0);
    assert(hex_run(lw, 4) == 1);
    assert(hex_run(lw, 3) == 2);
    assert(hex_run(lw, 2) == 3);
    let d = lw.subrange(2, 5);
    let e2 = d.drop_last();
    let e1 = e2.drop_last();
    let e0 = e1.drop_last();
    assert(e0 =~= Seq::<char>::empty());
    assert(hex_value(e0) == 0);
    assert(e1.last() == lw[2]);
    assert(hex_value(e1) == d2);
    assert(e2.last() == lw[3]);
    assert(hex_value(e2) == d2 * 16 + d1);
    assert(d.last() == lw[4]);
    assert(hex_value(d) == (d2 * 16 + d1) * 16 + d0);
    assert(n == d2 * 256 + d1 * 16 + d0);
}

proof fn lemma_text_plain(d: InstructionData)
    requires
        d == InstructionData::Cls || d == InstructionData::Ret,
    ensures
        text_of(d) == (if d is Cls {
            seq!['C', 'L', 'S']
        } else {
            seq!['R', 'E', 'T']
        }) + seq![' ', ' '],
{
    assert(text_of(d) =~= (if d is Cls {
        seq!['C', 'L', 'S']
    } else {
        seq!['R', 'E', 'T']
    }) + seq![' ', ' ']);
}

proof fn lemma_text_address(d: InstructionData, n: u16)
    requires
        d == InstructionData::Sys(n) || d == InstructionData::Jp(n) || d == InstructionData::Call(n),
    ensures
        ({
            let name = if d is Sys {
                seq!['S', 'Y', 'S']
            } else if d is Jp {
                seq!['J', 'P']
            } else {
                seq!['C', 'A', 'L', 'L']
            };
            text_of(d) == name + Seq::new((5 - name.len() + 1) as nat, |i: int| ' ') + addr_text(n)
        }),
{
    let name = if d is Sys {
        seq!['S', 'Y', 'S']
    } else if d is Jp {
        seq!['J', 'P']
    } else {
        seq!['C', 'A', 'L', 'L']
    };
    assert(text_of(d) =~= name + Seq::new((5 - name.len() + 1) as nat, |i: int| ' ') + addr_text(n));
}

proof fn lemma_round_trip_plain(d: InstructionData, w: u16)
    requires
        d == InstructionData::Cls || d == InstructionData::Ret,
        w == (if d == InstructionData::Cls {
            0x00E0u16
        } else {
            0x00EEu16
        }),
    ensures
        lines(text_of(d)) == seq![text_of(d)],
        is_ascii_text(text_of(d)),
        words(text_of(d)).len() >= 1,
        code_of(words(text_of(d)).map_values(|x: Seq<char>| token_of(folded(x, true)))) == Ok::<
            Seq<u8>,
            AssemblerError,
        >(be_bytes(w as int)),
{
    let name = if d is Cls {
        seq!['C', 'L', 'S']
    } else {
        seq!['R', 'E', 'T']
    };
    let text = name + seq![' ', ' '];
    lemma_text_plain(d);
    assert(lines(text) == seq![text]) by {
        lemma_lines_single(text);
    };
    assert(words(text) == seq![name]) by {
        lemma_words_blank_tail(name, seq![' ', ' ']);
        lemma_words_run(name);
    };
    let t = token_of(fold_ascii(name));
    assert(t == Token::Instruction(if d is Cls { Mnemonic::CLS } else { Mnemonic::RET })) by {
        reveal_strlit("cls");
        reveal_strlit("ret");
        lemma_mnemonic_tokens();
        assert(fold_ascii(name) =~= (if d is Cls {
            "cls"@
        } else {
            "ret"@
        }));
    };
    let toks = seq![name].map_values(|x: Seq<char>| token_of(folded(x, true)));
    assert(toks =~= seq![t]);
    assert(code_of(seq![t]) == Ok::<Seq<u8>, AssemblerError>(be_bytes(w as int)));
}

#[verifier::rlimit(50)]
proof fn lemma_round_trip_address(d: InstructionData, n: u16, base: int)
    requires
        n < 4096,
        d == InstructionData::Sys(n) && base == 0 || d == InstructionData::Jp(n) && base == 0x1000
            || d == InstructionData::Call(n) && base == 0x2000,
    ensures
        lines(text_of(d)) == seq![text_of(d)],
        is_ascii_text(text_of(d)),
        words(text_of(d)).len() >= 1,
        code_of(words(text_of(d)).map_values(|x: Seq<char>| token_of(folded(x, true)))) == Ok::<
            Seq<u8>,
            AssemblerError,
        >(be_bytes(base + n)),
{
    let text = text_of(d);
    reveal_strlit("sys");
    reveal_strlit("jp");
    reveal_strlit("call");
    lemma_mnemonic_tokens();
    let name = if d is Sys {
        seq!['S', 'Y', 'S']
    } else if d is Jp {
        seq!['J', 'P']
    } else {
        seq!['C', 'A', 'L', 'L']
    };
    let gap = Seq::new((5 - name.len() + 1) as nat, |i: int| ' ');
    lemma_text_address(d, n);
    lemma_address_token(n);
    lemma_words_two(name, gap, addr_text(n));
    lemma_lines_single(text);
    let toks = words(text).map_values(|x: Seq<char>| token_of(folded(x, true)));
    assert(fold_ascii(name) =~= (if d is Sys {
        "sys"@
    } else if d is Jp {
        "jp"@
    } else {
        "call"@
    }));
    assert(toks[0] == token_of(fold_ascii(name)));
    assert(toks[1] == token_of(fold_ascii(addr_text(n))));
}

/// Every word decodes to an instruction. A word that decodes to `CLS`, `RET`,
/// `SYS`, `JP` or `CALL` (the mnemonics that the assembler encodes) is listed as
/// ASCII text, and that text assembles back to the word's two bytes (with
/// `source_to_bytecode`, whose result on ASCII text is `assembled_ascii`).
pub proof fn lemma_listing_round_trip(w: u16)
    requires
        decoded(w) is Cls || decoded(w) is Ret || decoded(w) is Sys || decoded(w) is Jp
            || decoded(w) is Call,
    ensures
        is_ascii_text(text_of(decoded(w))),
        assembled_ascii(text_of(decoded(w))) == Ok::<Seq<u8>, AssemblerError>(be_bytes(w as int)),
{
    let d = decoded(w);
    let n = (w % 4096) as u16;
    if d is Cls || d is Ret {
        lemma_round_trip_plain(d, w);
    } else if d is Sys {
        lemma_round_trip_address(d, n, 0);
    } else if d is Jp {
        lemma_round_trip_address(d, n, 0x1000);
    } else {
        lemma_round_trip_address(d, n, 0x2000);
    }
    let text = text_of(d);
    assert(seq![text].drop_last() =~= Seq::<Seq<char>>::empty());
    assert(assemble_lines(Seq::<Seq<char>>::empty(), true) == Ok::<Seq<u8>, AssemblerError>(
        Seq::empty(),
    ));
    assert(Seq::<u8>::empty() + be_bytes(w as int) =~= be_bytes(w as int));
}

} // verus!
