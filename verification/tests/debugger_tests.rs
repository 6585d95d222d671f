use deet::breakpoint::{Breakpoint, BreakpointRegistry};
use deet::controller::{
    classify_stop, BreakpointRewind, ContinueBegin, DebugError, Debugger, ExecState, PassOutcome,
    Status, StopClass,
};
use deet::inferior::Inferior;
use deet::parse::{parse_break_target, BreakTarget};
use deet::patch::{align_addr_to_word, byte_at, set_byte, word_offset, BRK_BYTE, WORD_SIZE};
use deet::stack::{walk_stack, Frame, MemWords};
use deet::symbols::{FunctionEntry, LineEntry, SymbolTable};

fn sample_table() -> SymbolTable {
    SymbolTable {
        lines: vec![
            LineEntry { addr_lo: 0x1000, addr_hi: 0x1010, file: "foo.c".to_string(), line: 4 },
            LineEntry { addr_lo: 0x2000, addr_hi: 0x2010, file: "foo.c".to_string(), line: 9 },
            LineEntry { addr_lo: 0x3000, addr_hi: 0x3010, file: "foo.c".to_string(), line: 20 },
        ],
        functions: vec![
            FunctionEntry { addr_lo: 0x1000, addr_hi: 0x1100, name: "g".to_string() },
            FunctionEntry { addr_lo: 0x2000, addr_hi: 0x2100, name: "f".to_string() },
            FunctionEntry { addr_lo: 0x3000, addr_hi: 0x3100, name: "main".to_string() },
        ],
        entry_function: "main".to_string(),
    }
}

#[test]
fn test_patch_round_trip() {
    let word: u64 = 0x1122334455667788;
    for off in 0..WORD_SIZE {
        let orig = byte_at(word, off);
        let patched = set_byte(word, off, BRK_BYTE);
        assert_eq!(byte_at(patched, off), BRK_BYTE);
        let restored = set_byte(patched, off, orig);
        assert_eq!(restored, word);
        for other in 0..WORD_SIZE {
            if other != off {
                assert_eq!(byte_at(patched, other), byte_at(word, other));
            }
        }
    }
}

#[test]
fn test_align_and_offset() {
    assert_eq!(align_addr_to_word(0x401003), 0x401000);
    assert_eq!(word_offset(0x401003), 3);
    assert_eq!(align_addr_to_word(0x401000), 0x401000);
    assert_eq!(word_offset(0x401000), 0);
    assert_eq!(align_addr_to_word(0x40100f), 0x401008);
    assert_eq!(word_offset(0x40100f), 7);
}

#[test]
fn test_breakpoint_new() {
    let bp = Breakpoint::new(0x1234, 0x90).unwrap();
    assert_eq!(bp.addr, 0x1234);
    assert_eq!(bp.orig_byte, 0x90);
    assert!(!bp.installed);
}

#[test]
fn test_registry_request_and_install() {
    let mut reg = BreakpointRegistry::new();
    assert!(reg.request(0x1000));
    assert!(!reg.request(0x1000), "a duplicate request is ignored");
    assert!(reg.request(0x2000));
    assert_eq!(reg.len(), 2);
    assert!(reg.contains(0x1000));
    assert!(!reg.is_installed(0x1000));
    reg.note_installed(0x1000, 0xab);
    assert!(reg.is_installed(0x1000));
    assert_eq!(reg.installed_orig_byte(0x1000), Some(0xab));
    assert_eq!(reg.installed_orig_byte(0x2000), None);
    reg.note_uninstalled(0x1000);
    assert!(!reg.is_installed(0x1000));
    reg.note_reinstalled(0x1000);
    assert_eq!(reg.installed_orig_byte(0x1000), Some(0xab));
    reg.mark_all_uninstalled();
    assert!(!reg.is_installed(0x1000));
    assert!(reg.contains(0x1000));
}

#[test]
fn test_parse_break_targets() {
    assert!(matches!(parse_break_target("*0x401000"), Ok(BreakTarget::RawAddress(0x401000))));
    assert!(matches!(parse_break_target("*401000"), Ok(BreakTarget::RawAddress(0x401000))));
    assert!(matches!(parse_break_target("*0X1f"), Ok(BreakTarget::RawAddress(0x1f))));
    assert!(matches!(parse_break_target("*zz"), Err(DebugError::ResolutionFailure)));
    assert!(matches!(parse_break_target("*"), Err(DebugError::ResolutionFailure)));
    assert!(matches!(parse_break_target("123"), Ok(BreakTarget::Line(123))));
    match parse_break_target("main") {
        Ok(BreakTarget::Function(name)) => assert_eq!(name, "main"),
        _ => panic!("a plain token is a function name"),
    }
    // A numeral too large for a machine word falls back to a name.
    match parse_break_target("123456789012345678901234567890") {
        Ok(BreakTarget::Function(name)) => {
            assert_eq!(name, "123456789012345678901234567890")
        }
        _ => panic!("an oversized numeral is taken as a name"),
    }
}

#[test]
fn test_classify_stop() {
    let mut reg = BreakpointRegistry::new();
    reg.request(0x1000);
    assert_eq!(
        classify_stop(&reg, Status::Stopped(5, 0x1001)),
        StopClass::BreakpointHit(0x1000, 5)
    );
    assert_eq!(classify_stop(&reg, Status::Stopped(5, 0x2001)), StopClass::PlainStop(0x2001, 5));
    assert_eq!(classify_stop(&reg, Status::Stopped(5, 0)), StopClass::PlainStop(0, 5));
    assert_eq!(classify_stop(&reg, Status::Exited(0)), StopClass::ProcessExited(0));
    assert_eq!(classify_stop(&reg, Status::Signaled(9)), StopClass::ProcessSignaled(9));
}

#[test]
fn test_breakpoint_before_run_traps_and_continues_to_exit() {
    // A breakpoint set at a known function entry, before any run.
    let table = sample_table();
    let mut d = Debugger::new("sample".to_string());
    assert_eq!(d.set_breakpoint(&table, "f"), Ok(0x2000));

    // Run: tear down (nothing), spawn, install everything registered.
    assert_eq!(d.prepare_run(), None);
    d.on_process_spawned(41);
    let targets = d.install_targets();
    assert_eq!(targets, vec![0x2000]);
    d.note_breakpoint_installed(0x2000, 0x55);

    // The first stop reports the trap one byte past the breakpoint.
    let rewind = d.on_wait_status(Status::Stopped(5, 0x2001));
    assert_eq!(rewind, Some(BreakpointRewind { addr: 0x2000, orig_byte: 0x55 }));
    assert_eq!(d.state, ExecState::StoppedAtBreakpoint(0x2000));
    // The stop is reported at the function's resolved file and line.
    let (file, line) = table.address_to_line(0x2000).unwrap();
    assert_eq!((file.as_str(), line), ("foo.c", 9));

    // Continue: step over the breakpoint, re-arm it, then resume; the
    // target runs to completion.
    let begin = d.begin_continue().unwrap();
    assert_eq!(begin, ContinueBegin::PassBreakpoint { addr: 0x2000, restore_first: None });
    let outcome = d.finish_pass_over(Status::Stopped(5, 0x2001));
    assert_eq!(outcome, PassOutcome::ReadyToResume);
    assert!(d.breakpoints.is_installed(0x2000), "the pass re-arms the breakpoint");
    assert_eq!(d.on_wait_status(Status::Exited(0)), None);
    assert_eq!(d.state, ExecState::Exited(0));
    assert!(d.inferior.is_none());
}

#[test]
fn test_same_breakpoint_traps_twice() {
    // Hitting the same breakpoint address in two separate continues
    // traps both times, because every pass re-arms the trap byte.
    let mut d = Debugger::new("sample".to_string());
    let (added, install_now) = d.request_breakpoint(0x1000);
    assert!(added && !install_now);
    d.on_process_spawned(7);
    d.note_breakpoint_installed(0x1000, 0x90);

    for _pass in 0..2 {
        let rewind = d.on_wait_status(Status::Stopped(5, 0x1001));
        assert_eq!(rewind, Some(BreakpointRewind { addr: 0x1000, orig_byte: 0x90 }));
        assert_eq!(d.state, ExecState::StoppedAtBreakpoint(0x1000));
        assert!(!d.breakpoints.is_installed(0x1000));
        let begin = d.begin_continue().unwrap();
        assert_eq!(begin, ContinueBegin::PassBreakpoint { addr: 0x1000, restore_first: None });
        assert_eq!(d.finish_pass_over(Status::Stopped(5, 0x1001)), PassOutcome::ReadyToResume);
        assert!(d.breakpoints.is_installed(0x1000));
        assert_eq!(d.state, ExecState::Running);
    }
}

#[test]
fn test_raw_address_without_line_info_still_works() {
    // A raw address with no corresponding line info: the stop carries no
    // source annotation but the breakpoint still traps and is steppable.
    let table = SymbolTable::new("main".to_string());
    let mut d = Debugger::new("sample".to_string());
    assert_eq!(d.set_breakpoint(&table, "*0x401000"), Ok(0x401000));
    assert_eq!(table.address_to_line(0x401000), None);

    d.on_process_spawned(11);
    d.note_breakpoint_installed(0x401000, 0xc3);
    let rewind = d.on_wait_status(Status::Stopped(5, 0x401001));
    assert_eq!(rewind, Some(BreakpointRewind { addr: 0x401000, orig_byte: 0xc3 }));
    assert_eq!(d.state, ExecState::StoppedAtBreakpoint(0x401000));
    assert_eq!(
        d.begin_continue().unwrap(),
        ContinueBegin::PassBreakpoint { addr: 0x401000, restore_first: None }
    );
    assert_eq!(d.finish_pass_over(Status::Stopped(5, 0x401001)), PassOutcome::ReadyToResume);
}

#[test]
fn test_second_run_leaves_single_live_process() {
    let mut d = Debugger::new("sample".to_string());
    assert_eq!(d.prepare_run(), None);
    d.on_process_spawned(100);
    assert_eq!(d.inferior, Some(Inferior { pid: 100 }));

    // A second run first gives up the old process for termination, then
    // adopts the new one: exactly one process is live afterward.
    assert_eq!(d.prepare_run(), Some(100));
    assert!(d.inferior.is_none());
    d.on_process_spawned(101);
    assert_eq!(d.inferior, Some(Inferior { pid: 101 }));
}

#[test]
fn test_quit_while_stopped_terminates_process() {
    let mut d = Debugger::new("sample".to_string());
    d.request_breakpoint(0x1000);
    d.on_process_spawned(55);
    d.note_breakpoint_installed(0x1000, 0x90);
    d.on_wait_status(Status::Stopped(5, 0x1001));
    assert_eq!(d.state, ExecState::StoppedAtBreakpoint(0x1000));

    // Quit mid-session: the stopped process is handed over to be
    // terminated and reaped, and the session ends.
    assert_eq!(d.quit(), Some(55));
    assert_eq!(d.state, ExecState::Terminated);
    assert!(d.inferior.is_none());
}

#[test]
fn test_continue_invalid_without_process() {
    let mut d = Debugger::new("sample".to_string());
    assert_eq!(d.begin_continue(), Err(DebugError::InvalidCommand));
    assert!(matches!(d.continue_exec(), Err(DebugError::InvalidCommand)));
    let table = SymbolTable::new("main".to_string());
    assert!(matches!(d.backtrace(&table), Err(DebugError::InvalidCommand)));
}

#[test]
fn test_resolution_failures_change_nothing() {
    let table = sample_table();
    let mut d = Debugger::new("sample".to_string());
    assert_eq!(d.set_breakpoint(&table, "nosuchfn"), Err(DebugError::ResolutionFailure));
    assert_eq!(d.set_breakpoint(&table, "9999"), Err(DebugError::ResolutionFailure));
    assert_eq!(d.set_breakpoint(&table, "*zz"), Err(DebugError::ResolutionFailure));
    assert_eq!(d.breakpoints.len(), 0);
    // Line and function targets resolve through the table.
    assert_eq!(d.set_breakpoint(&table, "4"), Ok(0x1000));
    assert_eq!(d.set_breakpoint(&table, "main"), Ok(0x3000));
    assert_eq!(d.breakpoints.len(), 2);
}

#[test]
fn test_symbol_lookups() {
    let table = sample_table();
    assert_eq!(table.address_to_function(0x10ff).unwrap(), "g");
    assert_eq!(table.address_to_function(0x1100), None);
    assert_eq!(table.line_to_address(9), Some(0x2000));
    assert_eq!(table.line_to_address(10), None);
    assert_eq!(table.function_to_address(&"main".to_string()), Some(0x3000));
    assert_eq!(table.function_to_address(&"nope".to_string()), None);
    let (file, line) = table.address_to_line(0x3005).unwrap();
    assert_eq!((file.as_str(), line), ("foo.c", 20));
}

#[test]
fn test_backtrace_three_frames() {
    // A stop inside main -> f -> g walks exactly [g, f, main], with the
    // entry function last.
    let table = sample_table();
    // Frame links: g's frame base holds f's, whose base holds main's.
    let mem = MemWords {
        words: vec![
            (0x7f08, 0x2005), // return address into f
            (0x7f00, 0x7f58), // f's frame base
            (0x7f60, 0x3005), // return address into main
            (0x7f58, 0x7fa0), // main's frame base
        ],
    };
    let frames: Vec<Frame> = walk_stack(&table, &mem, 0x1004, 0x7f00, 64).unwrap();
    let names: Vec<&str> = frames.iter().map(|f| f.function.as_str()).collect();
    assert_eq!(names, vec!["g", "f", "main"]);
    assert_eq!(frames[0].file, "foo.c");
    assert_eq!(frames[0].line, 4);
    assert_eq!(frames[1].line, 9);
    assert_eq!(frames[2].line, 20);
}

#[test]
fn test_backtrace_errors() {
    let table = sample_table();
    let mem = MemWords { words: vec![] };
    // An unresolvable instruction pointer is a resolution error.
    assert_eq!(walk_stack(&table, &mem, 0x9000, 0x7f00, 64), Err(DebugError::ResolutionFailure));
    // An unreadable frame link is a memory-access error.
    assert_eq!(walk_stack(&table, &mem, 0x1004, 0x7f00, 64), Err(DebugError::MemoryAccessFailure));
}

#[test]
fn test_inferior_operations_fail_without_process() {
    // No process with this id exists (the kernel caps pids far lower),
    // so every tracing operation reports a memory-access failure.
    let inf = Inferior { pid: i32::MAX - 1 };
    assert_eq!(inf.pid(), i32::MAX - 1);
    assert!(matches!(inf.read_word(0x1000), Err(DebugError::MemoryAccessFailure)));
    assert!(matches!(inf.write_byte(0x1000, 0xcc), Err(DebugError::MemoryAccessFailure)));
    assert!(matches!(inf.set_rip(0x1000), Err(DebugError::MemoryAccessFailure)));
    assert!(Inferior::new(i32::MAX - 1).is_none());
}

#[test]
fn test_break_at_stop_address_then_continue() {
    // A breakpoint set while stopped exactly at the stop address is
    // installed before the next resume; continuing must then restore the
    // original byte, step, and re-arm, in that order.
    let mut d = Debugger::new("sample".to_string());
    d.on_process_spawned(9);
    let rewind = d.on_wait_status(Status::Stopped(5, 0x5000));
    assert_eq!(rewind, None);
    assert_eq!(d.state, ExecState::StoppedOther(0x5000));

    let (added, install_now) = d.request_breakpoint(0x5000);
    assert!(added && install_now, "a breakpoint set at a stop installs at once");
    d.note_breakpoint_installed(0x5000, 0x77);
    assert!(d.breakpoints.is_installed(0x5000));

    let begin = d.begin_continue().unwrap();
    assert_eq!(begin, ContinueBegin::PassBreakpoint { addr: 0x5000, restore_first: Some(0x77) });
    assert_eq!(d.finish_pass_over(Status::Stopped(5, 0x5001)), PassOutcome::ReadyToResume);
    assert!(d.breakpoints.is_installed(0x5000));
    assert_eq!(d.state, ExecState::Running);
}

#[test]
fn test_attach_nonexistent_child_fails() {
    // No child with this id can be waited on, so the run fails and the
    // session is back to holding no process.
    let mut d = Debugger::new("sample".to_string());
    assert_eq!(d.attach_spawned(i32::MAX - 2), Err(DebugError::SpawnFailure));
    assert_eq!(d.state, ExecState::NoProcess);
    assert!(d.inferior.is_none());
}

#[test]
fn test_step_ending_in_exit_stops_there() {
    // If the single step of the pass-over protocol reports an exit, the
    // continue reports that and does not resume further.
    let mut d = Debugger::new("sample".to_string());
    d.request_breakpoint(0x1000);
    d.on_process_spawned(13);
    d.note_breakpoint_installed(0x1000, 0x90);
    d.on_wait_status(Status::Stopped(5, 0x1001));
    let _ = d.begin_continue().unwrap();
    assert_eq!(d.finish_pass_over(Status::Exited(3)), PassOutcome::Ended);
    assert_eq!(d.state, ExecState::Exited(3));
    assert!(d.inferior.is_none());
}

#[test]
fn test_continue_on_dead_process_is_memory_access_failure() {
    // A tracing failure mid-command is a memory-access failure, never
    // the invalid-command report reserved for forbidden states.
    let mut d = Debugger::new("sample".to_string());
    d.on_process_spawned(i32::MAX - 3);
    assert_eq!(d.on_wait_status(Status::Stopped(5, 0x10)), None);
    assert_eq!(d.state, ExecState::StoppedOther(0x10));
    let table = SymbolTable::new("main".to_string());
    assert!(matches!(d.backtrace(&table), Err(DebugError::MemoryAccessFailure)));
    assert_eq!(d.continue_exec(), Err(DebugError::MemoryAccessFailure));
}
