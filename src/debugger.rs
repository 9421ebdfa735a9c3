//! The stepping debugger's command language and its disassembly window.

use vstd::prelude::*;

use crate::assembler::{pieces, same, split_at_char, views_of};
use crate::bus::Bus;
use crate::instruction::{decode_instruction, decoded, InstructionData};
use crate::memory::word_of;
use crate::specs::{Address, MEMORY_SIZE, PROGRAM_BEGIN};

verus! {

/// The value of a digit in any radix up to 36: `0`-`9`, then `a`-`z` or `A`-`Z`
/// from 10 on; 36 for any other character.
pub open spec fn digit_value(c: char) -> int {
    if '0' <= c <= '9' {
        c as u32 - '0' as u32
    } else if 'a' <= c <= 'z' {
        c as u32 - 'a' as u32 + 10
    } else if 'A' <= c <= 'Z' {
        c as u32 - 'A' as u32 + 10
    } else {
        36
    }
}

/// Whether every character of `d` is a digit of `radix`.
pub open spec fn all_digits(d: Seq<char>, radix: int) -> bool {
    forall|i: int| 0 <= i < d.len() ==> #[trigger] digit_value(d[i]) < radix
}

/// The value of the digits `d` in `radix`, most significant first.
pub open spec fn digits_value(d: Seq<char>, radix: int) -> int
    decreases d.len(),
{
    if d.len() == 0 {
        0
    } else {
        digits_value(d.drop_last(), radix) * radix + digit_value(d.last())
    }
}

/// The number that `s` writes in `radix` as an optional `+` and digits.
pub open spec fn unsigned_text(s: Seq<char>, radix: int) -> Option<int> {
    let body = if s.len() > 0 && s[0] == '+' {
        s.drop_first()
    } else {
        s
    };
    if body.len() > 0 && all_digits(body, radix) {
        Some(digits_value(body, radix))
    } else {
        None
    }
}

/// The number that `s` writes in `radix` as an optional `+` or `-` and digits.
pub open spec fn signed_text(s: Seq<char>, radix: int) -> Option<int> {
    if s.len() > 0 && s[0] == '-' {
        let body = s.drop_first();
        if body.len() > 0 && all_digits(body, radix) {
            Some(-digits_value(body, radix))
        } else {
            None
        }
    } else {
        unsigned_text(s, radix)
    }
}

/// Relies on i32::from_str_radix: an optional sign then digits of `radix`, whose
/// value fits in an `i32`; it panics on a radix outside 2 to 36.
#[verifier::external_body]
fn i32_from_str_radix(s: &str, radix: u32) -> (r: Option<i32>)
    requires
        2 <= radix <= 36,
    ensures
        r == (match signed_text(s@, radix as int) {
            Some(v) => if i32::MIN <= v <= i32::MAX {
                Some(v as i32)
            } else {
                None
            },
            None => None,
        }),
{
    i32::from_str_radix(s, radix).ok()
}

/// Relies on u16::from_str_radix: an optional `+` then digits of `radix`, whose
/// value fits in a `u16`; it panics on a radix outside 2 to 36.
#[verifier::external_body]
fn u16_from_str_radix(s: &str, radix: u32) -> (r: Option<u16>)
    requires
        2 <= radix <= 36,
    ensures
        r == (match unsigned_text(s@, radix as int) {
            Some(v) => if v <= u16::MAX {
                Some(v as u16)
            } else {
                None
            },
            None => None,
        }),
{
    u16::from_str_radix(s, radix).ok()
}

/// `s` without its leading `0x` prefixes, however many.
pub open spec fn strip_hex_prefix(s: Seq<char>) -> Seq<char>
    decreases s.len(),
{
    if s.len() >= 2 && s[0] == '0' && s[1] == 'x' {
        strip_hex_prefix(s.subrange(2, s.len() as int))
    } else {
        s
    }
}

/// A command of the debugger.
#[derive(Debug)]
pub enum DebuggerCommand {
    Break(Address),
    SetVariable(String, i32),
    Continue,
    Run,
    Status,
    Next,
    Ctx,
    Screen,
    Empty,
    Quit,
    Dump,
}

/// A command, its key seen as characters.
pub enum CommandView {
    Break(u16),
    SetVariable(Seq<char>, i32),
    Continue,
    Run,
    Status,
    Next,
    Ctx,
    Screen,
    Empty,
    Quit,
    Dump,
}

impl View for DebuggerCommand {
    type V = CommandView;

    open spec fn view(&self) -> CommandView {
        match self {
            DebuggerCommand::Break(a) => CommandView::Break(*a),
            DebuggerCommand::SetVariable(k, v) => CommandView::SetVariable(k@, *v),
            DebuggerCommand::Continue => CommandView::Continue,
            DebuggerCommand::Run => CommandView::Run,
            DebuggerCommand::Status => CommandView::Status,
            DebuggerCommand::Next => CommandView::Next,
            DebuggerCommand::Ctx => CommandView::Ctx,
            DebuggerCommand::Screen => CommandView::Screen,
            DebuggerCommand::Empty => CommandView::Empty,
            DebuggerCommand::Quit => CommandView::Quit,
            DebuggerCommand::Dump => CommandView::Dump,
        }
    }
}

/// The command that `line` asks for, or the message that says why it is not one.
/// Its fields are separated by single spaces; the first names the command.
pub open spec fn command_of(line: Seq<char>) -> Result<CommandView, Seq<char>> {
    let f = pieces(line, ' ');
    let t = f[0];
    if t == "ctx"@ {
        Ok(CommandView::Ctx)
    } else if t == "c"@ || t == "continue"@ {
        Ok(CommandView::Continue)
    } else if t == "next"@ || t == "n"@ {
        Ok(CommandView::Next)
    } else if t == "run"@ || t == "r"@ {
        Ok(CommandView::Run)
    } else if t == "dump"@ {
        Ok(CommandView::Dump)
    } else if t == "screen"@ {
        Ok(CommandView::Screen)
    } else if t == "status"@ {
        Ok(CommandView::Status)
    } else if t == "quit"@ || t == "exit"@ || t == "q"@ {
        Ok(CommandView::Quit)
    } else if t == "set"@ {
        if f.len() < 2 {
            Err("Missing key after set"@)
        } else if f.len() < 3 {
            Err("Missing value after key."@)
        } else {
            match signed_text(f[2], 10) {
                Some(v) => if i32::MIN <= v <= i32::MAX {
                    Ok(CommandView::SetVariable(f[1], v as i32))
                } else {
                    Err("Unable to parse value."@)
                },
                None => Err("Unable to parse value."@),
            }
        }
    } else if t == "break"@ || t == "b"@ {
        if f.len() < 2 {
            Err("Missing argument after break"@)
        } else {
            match unsigned_text(strip_hex_prefix(f[1]), 16) {
                Some(a) => if a <= u16::MAX {
                    Ok(CommandView::Break(a as u16))
                } else {
                    Err("Error while parsing address."@)
                },
                None => Err("Error while parsing address."@),
            }
        }
    } else if t.len() == 0 {
        Ok(CommandView::Empty)
    } else {
        Err("Unknown command: "@ + t)
    }
}

/// A command or its message, seen through `@`.
pub open spec fn parsed_view(r: Result<DebuggerCommand, String>) -> Result<CommandView, Seq<char>> {
    match r {
        Ok(c) => Ok(c@),
        Err(e) => Err(e@),
    }
}

/// `s` without its leading `0x` prefixes.
fn trim_hex_prefix<'a>(s: &'a str) -> (r: &'a str)
    ensures
        r@ == strip_hex_prefix(s@),
{
    let n = s.unicode_len();
    let mut i: usize = 0;
    assert(s@.subrange(0, n as int) =~= s@);
    while i < n && i + 1 < n && s.get_char(i) == '0' && s.get_char(i + 1) == 'x'
        invariant
            n == s@.len(),
            i <= n,
            strip_hex_prefix(s@) == strip_hex_prefix(s@.subrange(i as int, n as int)),
        decreases n - i,
    {
        let ghost rest = s@.subrange(i as int, n as int);
        assert(rest.subrange(2, rest.len() as int) =~= s@.subrange(i + 2, n as int));
        i = i + 2;
    }
    assert(s@.subrange(i as int, n as int).len() < 2 || s@.subrange(i as int, n as int)[0] != '0'
        || s@.subrange(i as int, n as int)[1] != 'x');
    s.substring_char(i, n)
}

/// Parses one line of debugger input.
pub fn parse_input(line: &str) -> (r: Result<DebuggerCommand, String>)
    ensures
        parsed_view(r) == command_of(line@),
{
    let f = split_at_char(line, ' ');
    assert(views_of(f@).len() >= 1) by {
        lemma_pieces_nonempty(line@, ' ');
    };
    assert(views_of(f@)[0] == f@[0]@);
    let tok = f[0];
    if same(tok, "ctx") {
        Ok(DebuggerCommand::Ctx)
    } else if same(tok, "c") || same(tok, "continue") {
        Ok(DebuggerCommand::Continue)
    } else if same(tok, "next") || same(tok, "n") {
        Ok(DebuggerCommand::Next)
    } else if same(tok, "run") || same(tok, "r") {
        Ok(DebuggerCommand::Run)
    } else if same(tok, "dump") {
        Ok(DebuggerCommand::Dump)
    } else if same(tok, "screen") {
        Ok(DebuggerCommand::Screen)
    } else if same(tok, "status") {
        Ok(DebuggerCommand::Status)
    } else if same(tok, "quit") || same(tok, "exit") || same(tok, "q") {
        Ok(DebuggerCommand::Quit)
    } else if same(tok, "set") {
        if f.len() < 2 {
            Err(String::from_str("Missing key after set"))
        } else if f.len() < 3 {
            Err(String::from_str("Missing value after key."))
        } else {
            assert(views_of(f@)[1] == f@[1]@ && views_of(f@)[2] == f@[2]@);
            match i32_from_str_radix(f[2], 10) {
                Some(val) => Ok(DebuggerCommand::SetVariable(String::from_str(f[1]), val)),
                None => Err(String::from_str("Unable to parse value.")),
            }
        }
    } else if same(tok, "break") || same(tok, "b") {
        if f.len() < 2 {
            Err(String::from_str("Missing argument after break"))
        } else {
            assert(views_of(f@)[1] == f@[1]@);
            match u16_from_str_radix(trim_hex_prefix(f[1]), 16) {
                Some(addr) => Ok(DebuggerCommand::Break(addr)),
                None => Err(String::from_str("Error while parsing address.")),
            }
        }
    } else if tok.unicode_len() == 0 {
        Ok(DebuggerCommand::Empty)
    } else {
        let mut msg = String::from_str("Unknown command: ");
        msg.append(tok);
        Err(msg)
    }
}

proof fn lemma_pieces_nonempty(s: Seq<char>, sep: char)
    ensures
        pieces(s, sep).len() >= 1,
    decreases s.len(),
{
    if s.len() > 0 {
        lemma_pieces_nonempty(s.drop_last(), sep);
    }
}

/// The listing of the words from address `a` to `hi`, two bytes apart, leaving
/// out those below `PROGRAM_BEGIN` or past the end of memory.
pub open spec fn context_from(ram: Seq<u8>, a: int, hi: int) -> Seq<(u16, InstructionData)>
    decreases hi - a + 2,
{
    if a > hi || a < 0 {
        Seq::empty()
    } else {
        let here = if PROGRAM_BEGIN <= a && a + 1 < MEMORY_SIZE {
            seq![(a as u16, decoded(word_of(ram[a], ram[a + 1])))]
        } else {
            Seq::empty()
        };
        here + context_from(ram, a + 2, hi)
    }
}

/// The window of the listing around `pc`: the words from `span` instructions
/// before it (or address 0) to `span` instructions after it.
pub open spec fn context_window(ram: Seq<u8>, pc: int, span: int) -> Seq<(u16, InstructionData)> {
    let lo = if 2 * span > pc {
        0
    } else {
        pc - 2 * span
    };
    context_from(ram, lo, pc + 2 * span)
}

/// The decoded instructions around `current_pc`, each with its address.
pub fn get_execution_context(bus: &Bus, current_pc: Address, span: u16) -> (r: Vec<
    (Address, InstructionData),
>)
    ensures
        r@ == context_window(bus.ram(), current_pc as int, span as int),
{
    proof {
        bus.lemma_sizes();
    }
    let pc = current_pc as u32;
    let size = span as u32;
    let lo: u32 = if size * 2 > pc {
        0
    } else {
        pc - size * 2
    };
    let hi: u32 = pc + size * 2;
    let mut instrs: Vec<(Address, InstructionData)> = Vec::new();
    let mut addr = lo;
    assert(instrs@ + context_from(bus.ram(), addr as int, hi as int) =~= context_window(
        bus.ram(),
        current_pc as int,
        span as int,
    ));
    while addr <= hi
        invariant
            lo <= addr <= hi + 2,
            hi <= 0x3_0000,
            bus.ram().len() == MEMORY_SIZE,
            instrs@ + context_from(bus.ram(), addr as int, hi as int) == context_window(
                bus.ram(),
                current_pc as int,
                span as int,
            ),
        decreases hi + 2 - addr,
    {
        let ghost before = instrs@;
        if addr >= PROGRAM_BEGIN as u32 && addr + 1 < MEMORY_SIZE as u32 {
            let instr = bus.read_instruction(addr as u16);
            instrs.push((addr as u16, decode_instruction(instr)));
        }
        addr = addr + 2;
        assert(instrs@ + context_from(bus.ram(), addr as int, hi as int) =~= before
            + context_from(bus.ram(), addr - 2, hi as int));
    }
    assert(instrs@ =~= instrs@ + context_from(bus.ram(), addr as int, hi as int));
    instrs
}

/// What the driver does after a line of input.
#[derive(Debug)]
pub enum Effect {
    /// Nothing to do.
    Nothing,
    /// Print the processor's state.
    ShowStatus,
    /// Print the window of the listing around the program counter.
    ShowContext,
    /// Print memory.
    ShowDump,
    /// Print the screen.
    ShowScreen,
    /// Tick the processor once, then print the window of the listing.
    Step,
    /// Put the processor back in its initial state and run.
    Restart,
    /// Run until a breakpoint.
    Resume,
    /// Give `name` the value.
    Assign(String, i32),
    /// A breakpoint was added at this address.
    BreakpointAdded(Address),
    /// Leave the debugger.
    Leave,
    /// Print this message.
    Report(String),
}

/// Where the debugger stands: whether it waits for input, whether it is to stop,
/// the last program counter, and the breakpoints.
pub struct Session {
    need_input: bool,
    must_exit: bool,
    current_pc: Address,
    breakpoints: Vec<Address>,
}

/// A session, seen as plain values.
pub struct SessionView {
    pub need_input: bool,
    pub must_exit: bool,
    pub current_pc: u16,
    pub breakpoints: Seq<u16>,
}

impl View for Session {
    type V = SessionView;

    closed spec fn view(&self) -> SessionView {
        SessionView {
            need_input: self.need_input,
            must_exit: self.must_exit,
            current_pc: self.current_pc,
            breakpoints: self.breakpoints@,
        }
    }
}

impl Session {
    /// A session that waits for input at the start of the program, with no
    /// breakpoints.
    pub fn new() -> (r: Self)
        ensures
            r@ == (SessionView {
                need_input: true,
                must_exit: false,
                current_pc: PROGRAM_BEGIN as u16,
                breakpoints: Seq::empty(),
            }),
    {
        let r = Session {
            need_input: true,
            must_exit: false,
            current_pc: PROGRAM_BEGIN as Address,
            breakpoints: Vec::new(),
        };
        assert(r@.breakpoints =~= Seq::<u16>::empty());
        r
    }

    /// Whether the driver is to read a command rather than tick.
    pub fn needs_input(&self) -> (r: bool)
        ensures
            r == self@.need_input,
    {
        self.need_input
    }

    /// Whether the driver is to stop.
    pub fn must_exit(&self) -> (r: bool)
        ensures
            r == self@.must_exit,
    {
        self.must_exit
    }

    /// The program counter after the last tick.
    pub fn current_pc(&self) -> (r: Address)
        ensures
            r == self@.current_pc,
    {
        self.current_pc
    }

    /// Takes the program counter after a tick; stops for input when it is a
    /// breakpoint, and says so.
    pub fn after_tick(&mut self, pc: Address) -> (stopped: bool)
        ensures
            stopped == old(self)@.breakpoints.contains(pc),
            final(self)@ == (SessionView {
                current_pc: pc,
                need_input: old(self)@.need_input || stopped,
                ..old(self)@
            }),
    {
        self.current_pc = pc;
        let mut k: usize = 0;
        let mut found = false;
        while k < self.breakpoints.len()
            invariant
                k <= self.breakpoints@.len(),
                found == exists|j: int| 0 <= j < k && self.breakpoints@[j] == pc,
            decreases self.breakpoints@.len() - k,
        {
            if self.breakpoints[k] == pc {
                found = true;
            }
            k = k + 1;
        }
        proof {
            if found {
                let j = choose|j: int| 0 <= j < k && self.breakpoints@[j] == pc;
                assert(self.breakpoints@.contains(pc));
            }
        }
        if found {
            self.need_input = true;
        }
        found
    }

    /// Takes a parsed line of input and says what the driver is to do.
    pub fn process_input(&mut self, input: Result<DebuggerCommand, String>) -> (r: Effect)
        ensures
            final(self)@ == (match input {
                Ok(DebuggerCommand::Run) | Ok(DebuggerCommand::Continue) => SessionView {
                    need_input: false,
                    ..old(self)@
                },
                Ok(DebuggerCommand::Quit) => SessionView { must_exit: true, ..old(self)@ },
                Ok(DebuggerCommand::Break(a)) => SessionView {
                    breakpoints: old(self)@.breakpoints.push(a),
                    ..old(self)@
                },
                _ => old(self)@,
            }),
            (match (input, r) {
                (Ok(DebuggerCommand::Empty), Effect::Nothing) => true,
                (Ok(DebuggerCommand::Status), Effect::ShowStatus) => true,
                (Ok(DebuggerCommand::Run), Effect::Restart) => true,
                (Ok(DebuggerCommand::Ctx), Effect::ShowContext) => true,
                (Ok(DebuggerCommand::Dump), Effect::ShowDump) => true,
                (Ok(DebuggerCommand::Next), Effect::Step) => true,
                (Ok(DebuggerCommand::Screen), Effect::ShowScreen) => true,
                (Ok(DebuggerCommand::Continue), Effect::Resume) => true,
                (Ok(DebuggerCommand::Quit), Effect::Leave) => true,
                (Ok(DebuggerCommand::Break(a)), Effect::BreakpointAdded(b)) => a == b,
                (Ok(DebuggerCommand::SetVariable(k, v)), Effect::Assign(k2, v2)) => k2@ == k@ && v2
                    == v,
                (Err(e), Effect::Report(m)) => m@ == e@,
                _ => false,
            }),
    {
        match input {
            Ok(cmd) => match cmd {
                DebuggerCommand::Empty => Effect::Nothing,
                DebuggerCommand::Status => Effect::ShowStatus,
                DebuggerCommand::Run => {
                    self.need_input = false;
                    Effect::Restart
                },
                DebuggerCommand::Ctx => Effect::ShowContext,
                DebuggerCommand::Dump => Effect::ShowDump,
                DebuggerCommand::Next => Effect::Step,
                DebuggerCommand::Screen => Effect::ShowScreen,
                DebuggerCommand::Continue => {
                    self.need_input = false;
                    Effect::Resume
                },
                DebuggerCommand::Quit => {
                    self.must_exit = true;
                    Effect::Leave
                },
                DebuggerCommand::Break(addr) => {
                    self.breakpoints.push(addr);
                    Effect::BreakpointAdded(addr)
                },
                DebuggerCommand::SetVariable(key, value) => Effect::Assign(key, value),
            },
            Err(err) => Effect::Report(err),
        }
    }
}

} // verus!
