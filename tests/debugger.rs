use chip8::bus::Bus;
use chip8::debugger::{get_execution_context, parse_input, DebuggerCommand, Effect, Session};
use chip8::instruction::InstructionData;
use chip8::memory::{MainMemory, ROM};

#[test]
fn commands() {
    assert!(matches!(parse_input("ctx"), Ok(DebuggerCommand::Ctx)));
    assert!(matches!(parse_input("n"), Ok(DebuggerCommand::Next)));
    assert!(matches!(parse_input("continue"), Ok(DebuggerCommand::Continue)));
    assert!(matches!(parse_input("r"), Ok(DebuggerCommand::Run)));
    assert!(matches!(parse_input("exit"), Ok(DebuggerCommand::Quit)));
    assert!(matches!(parse_input(""), Ok(DebuggerCommand::Empty)));
    assert!(matches!(parse_input("b 0x200"), Ok(DebuggerCommand::Break(0x200))));
    assert!(matches!(parse_input("break 0x0x2aB"), Ok(DebuggerCommand::Break(0x2AB))));
    match parse_input("set context_span 3") {
        Ok(DebuggerCommand::SetVariable(k, v)) => {
            assert_eq!(k, "context_span");
            assert_eq!(v, 3);
        }
        _ => panic!("not a set command"),
    }
    assert!(matches!(parse_input("set k -12"), Ok(DebuggerCommand::SetVariable(_, -12))));
}

#[test]
fn command_errors() {
    assert_eq!(parse_input("set").unwrap_err(), "Missing key after set");
    assert_eq!(parse_input("set k").unwrap_err(), "Missing value after key.");
    assert_eq!(parse_input("set k x").unwrap_err(), "Unable to parse value.");
    assert_eq!(parse_input("set k 99999999999").unwrap_err(), "Unable to parse value.");
    assert_eq!(parse_input("break").unwrap_err(), "Missing argument after break");
    assert_eq!(parse_input("b zz").unwrap_err(), "Error while parsing address.");
    assert_eq!(parse_input("b 0x10000").unwrap_err(), "Error while parsing address.");
    assert_eq!(parse_input("foo bar").unwrap_err(), "Unknown command: foo");
}

#[test]
fn context_window() {
    let rom = ROM::from_bytes(vec![0x00, 0xE0, 0x12, 0x00, 0x00, 0xEE, 0x60, 0x01]);
    let bus = Bus::new(MainMemory::with_rom(rom));
    let ctx = get_execution_context(&bus, 0x200, 2);
    assert_eq!(
        ctx,
        vec![
            (0x200, InstructionData::Cls),
            (0x202, InstructionData::Jp(0x200)),
            (0x204, InstructionData::Ret),
        ]
    );
    let ctx = get_execution_context(&bus, 0x204, 1);
    assert_eq!(ctx.len(), 3);
    assert_eq!(ctx[0].0, 0x202);
    assert_eq!(ctx[2], (0x206, InstructionData::Ld(0, 1)));
    let ctx = get_execution_context(&bus, 0xFFC, 2);
    assert_eq!(ctx.iter().map(|e| e.0).collect::<Vec<u16>>(), vec![0xFF8, 0xFFA, 0xFFC, 0xFFE]);
}

#[test]
fn session() {
    let mut s = Session::new();
    assert!(s.needs_input());
    assert!(matches!(s.process_input(parse_input("b 0x204")), Effect::BreakpointAdded(0x204)));
    assert!(matches!(s.process_input(parse_input("c")), Effect::Resume));
    assert!(!s.needs_input());
    assert!(!s.after_tick(0x202));
    assert!(!s.needs_input());
    assert!(s.after_tick(0x204));
    assert!(s.needs_input());
    assert_eq!(s.current_pc(), 0x204);
    assert!(matches!(s.process_input(parse_input("nope")), Effect::Report(_)));
    assert!(matches!(s.process_input(parse_input("q")), Effect::Leave));
    assert!(s.must_exit());
}
