//! The live session: the execution controller driving a real traced
//! process.
//!
//! Each method here performs the tracing work of one command — patching
//! trap bytes, resuming, stepping, waiting — strictly following the
//! decisions of the verified transitions in the controller. Every patch
//! operation against the current stop address is bracketed exactly as the
//! pass-over protocol demands: restore, step, re-install, resume, in that
//! order, with nothing in between.

use vstd::prelude::*;

use crate::controller::lemma_all_installed_from_addrs;
use crate::controller::spec_classify_stop;
use crate::controller::ContinueBegin;
use crate::controller::DebugError;
use crate::controller::Debugger;
use crate::controller::ExecState;
use crate::controller::Status;
use crate::controller::StopClass;
use crate::inferior::Inferior;
use crate::parse::parse_break_target;
use crate::parse::spec_hex_body_start;
use crate::parse::spec_is_raw_marker;
use crate::parse::spec_radix_ok;
use crate::parse::spec_radix_value;
use crate::parse::BreakTarget;
use crate::patch;
use crate::stack::frame_resolved;
use crate::stack::Frame;
use crate::stack::MAX_BACKTRACE_FRAMES;
use crate::symbols::spec_addr_for_function;
use crate::symbols::spec_addr_for_line;
use crate::symbols::SymbolTable;
use vstd::string::StringSliceAdditionalSpecFns;

verus! {

impl Debugger {
    /// Complete a run after the child was spawned with tracing requested:
    /// adopt it, block until its initial trap, and patch in every
    /// registered breakpoint. On success the session holds exactly one
    /// live process, every registered breakpoint is installed (a
    /// breakpoint set before the run is in place before the process first
    /// resumes), and the process is ready to be resumed. On failure no
    /// process is held and the session is back to having no process.
    pub fn attach_spawned(&mut self, pid: i32) -> (r: Result<(), DebugError>)
        requires
            old(self).wf(),
            old(self).state == ExecState::NoProcess,
        ensures
            final(self).wf(),
            final(self).patches_consistent(),
            final(self).target == old(self).target,
            forall|a: usize|
                final(self).breakpoints.contains_addr(a) == old(self).breakpoints.contains_addr(a),
            match r {
                Ok(()) => {
                    &&& final(self).state == ExecState::Running
                    &&& final(self).live_count() == 1
                    &&& final(self).breakpoints.all_installed()
                },
                Err(e) => {
                    &&& (e == DebugError::SpawnFailure || e == DebugError::MemoryAccessFailure)
                    &&& final(self).state == ExecState::NoProcess
                    &&& final(self).live_count() == 0
                },
            },
    {
        let inf = match Inferior::new(pid) {
            Some(inf) => inf,
            None => {
                return Err(DebugError::SpawnFailure);
            },
        };
        self.on_process_spawned(pid);
        let targets = self.install_targets();
        let ghost reg0 = self.breakpoints;
        let n = targets.len();
        let mut i: usize = 0;
        while i < n
            invariant
                self.wf(),
                self.state == ExecState::Running,
                self.inferior == Some(Inferior { pid }),
                self.target == old(self).target,
                n == targets@.len(),
                i <= n,
                reg0 == old(self).breakpoints,
                reg0.wf(),
                n == reg0.spec_len(),
                forall|j: int| 0 <= j < n ==> targets@[j] == reg0.spec_at(j).addr,
                forall|a: usize|
                    self.breakpoints.contains_addr(a) == reg0.contains_addr(a),
                forall|j: int|
                    0 <= j < i ==> self.breakpoints.spec_is_installed(targets@[j]),
            decreases n - i,
        {
            let addr = targets[i];
            proof {
                reg0.lemma_index_unique(addr, i as int);
            }
            match inf.write_byte(addr, patch::BRK_BYTE) {
                Ok(orig) => {
                    self.note_breakpoint_installed(addr, orig);
                    proof {
                        assert forall|j: int|
                            0 <= j < i + 1 implies self.breakpoints.spec_is_installed(
                            targets@[j],
                        ) by {
                            if j < i {
                                reg0.lemma_index_unique(targets@[j], j);
                                reg0.lemma_index_unique(addr, i as int);
                                assert(targets@[j] != addr);
                            }
                        }
                    }
                },
                Err(_) => {
                    // A failed install leaves the trace state unusable:
                    // terminate the half-attached child and report.
                    inf.kill();
                    self.inferior = None;
                    self.state = ExecState::NoProcess;
                    self.stopped_rip = 0;
                    self.breakpoints.mark_all_uninstalled();
                    proof {
                        assert forall|a: usize|
                            self.breakpoints.contains_addr(a) == old(self).breakpoints.contains_addr(a) by {
                            assert(reg0.contains_addr(a) == old(self).breakpoints.contains_addr(
                                a,
                            ));
                        }
                    }
                    return Err(DebugError::MemoryAccessFailure);
                },
            }
            i += 1;
        }
        proof {
            assert forall|a: usize| self.breakpoints.contains_addr(a) implies self.breakpoints.spec_is_installed(a) by {
                assert(reg0.contains_addr(a));
                let k = choose|k: int|
                    0 <= k < reg0.bps@.len() && reg0.bps@[k].addr == a;
                reg0.lemma_index_unique(a, k);
                assert(targets@[k] == a);
            }
            lemma_all_installed_from_addrs(self.breakpoints);
        }
        Ok(())
    }

    /// Resume the traced process and digest its next reported event,
    /// restoring the original byte and rewinding the instruction pointer
    /// when the event is a breakpoint hit. The resulting state follows the
    /// classification of the reported status.
    pub fn resume_and_wait(&mut self) -> (r: Result<Status, DebugError>)
        requires
            old(self).wf(),
            old(self).patches_consistent(),
        ensures
            final(self).wf(),
            final(self).patches_consistent(),
            final(self).target == old(self).target,
            forall|a: usize|
                final(self).breakpoints.contains_addr(a) == old(self).breakpoints.contains_addr(a),
            forall|a: usize|
                old(self).breakpoints.contains_addr(a) ==> final(self).breakpoints.entry_for(
                    a,
                ).addr == a && final(self).breakpoints.entry_for(a).orig_byte == old(
                    self,
                ).breakpoints.entry_for(a).orig_byte,
            old(self).state != ExecState::Running ==> r == Err::<Status, DebugError>(
                DebugError::InvalidCommand,
            ) && *final(self) == *old(self),
            r matches Err(e) ==> (old(self).state == ExecState::Running ==> e
                == DebugError::MemoryAccessFailure),
            r matches Ok(st) ==> old(self).state == ExecState::Running && match spec_classify_stop(
                old(self).breakpoints,
                st,
            ) {
                StopClass::ProcessExited(code) => final(self).state == ExecState::Exited(code)
                    && final(self).live_count() == 0,
                StopClass::ProcessSignaled(_) => final(self).state == ExecState::Terminated
                    && final(self).live_count() == 0,
                StopClass::BreakpointHit(a, _) => final(self).state
                    == ExecState::StoppedAtBreakpoint(a) && final(self).stopped_rip == a && final(self).live_count() == 1,
                StopClass::PlainStop(p, _) => final(self).state == ExecState::StoppedOther(p)
                    && final(self).stopped_rip == p && final(self).live_count() == 1,
            },
    {
        match self.state {
            ExecState::Running => {},
            _ => {
                return Err(DebugError::InvalidCommand);
            },
        }
        let inf = self.inferior.unwrap();
        let status = match inf.cont_exec() {
            Ok(st) => st,
            Err(e) => {
                return Err(e);
            },
        };
        let rewind = self.on_wait_status(status);
        match rewind {
            Some(rw) => {
                // Put the original instruction byte back and rewind the
                // instruction pointer to the breakpoint address.
                match inf.write_byte(rw.addr, rw.orig_byte) {
                    Ok(_) => {},
                    Err(e) => {
                        return Err(e);
                    },
                }
                match inf.set_rip(rw.addr) {
                    Ok(()) => {},
                    Err(e) => {
                        return Err(e);
                    },
                }
            },
            None => {},
        }
        Ok(status)
    }

    /// The continue command: valid only from a stopped state. If the stop
    /// address is a registered breakpoint, pass over it first — restore
    /// the original byte (when the trap is installed), single-step, and
    /// re-install the trap byte — then resume; the breakpoint stays armed
    /// for future passes. Reports the next observed status.
    pub fn continue_exec(&mut self) -> (r: Result<Status, DebugError>)
        requires
            old(self).wf(),
            old(self).patches_consistent(),
        ensures
            final(self).wf(),
            final(self).patches_consistent(),
            final(self).target == old(self).target,
            forall|a: usize|
                final(self).breakpoints.contains_addr(a) == old(self).breakpoints.contains_addr(a),
            forall|a: usize|
                old(self).breakpoints.contains_addr(a) ==> final(self).breakpoints.entry_for(
                    a,
                ).addr == a && final(self).breakpoints.entry_for(a).orig_byte == old(
                    self,
                ).breakpoints.entry_for(a).orig_byte,
            !(old(self).state matches ExecState::StoppedAtBreakpoint(_) || old(self).state
                matches ExecState::StoppedOther(_)) ==> r == Err::<Status, DebugError>(
                DebugError::InvalidCommand,
            ) && *final(self) == *old(self),
            r matches Err(e) ==> ((old(self).state matches ExecState::StoppedAtBreakpoint(_) || old(
                self,
            ).state matches ExecState::StoppedOther(_)) ==> e == DebugError::MemoryAccessFailure),
            r matches Ok(st) ==> match st {
                Status::Exited(code) => final(self).state == ExecState::Exited(code) && final(self).live_count() == 0,
                Status::Signaled(_) => final(self).state == ExecState::Terminated && final(self).live_count() == 0,
                Status::Stopped(_, rip) => final(self).state == (if rip >= 1 && final(self).breakpoints.contains_addr((rip - 1) as usize) {
                    ExecState::StoppedAtBreakpoint((rip - 1) as usize)
                } else {
                    ExecState::StoppedOther(rip)
                }),
            },
    {
        let begin = match self.begin_continue() {
            Ok(b) => b,
            Err(e) => {
                return Err(e);
            },
        };
        match begin {
            ContinueBegin::ResumeOnly => {
                let ghost mid = *self;
                let r = self.resume_and_wait();
                proof {
                    assert forall|a: usize|
                        old(self).breakpoints.contains_addr(a) implies self.breakpoints.entry_for(
                        a,
                    ).addr == a && self.breakpoints.entry_for(a).orig_byte == old(
                        self,
                    ).breakpoints.entry_for(a).orig_byte by {
                        assert(mid.breakpoints == old(self).breakpoints);
                        assert(mid.breakpoints.contains_addr(a));
                    }
                }
                r
            },
            ContinueBegin::PassBreakpoint { addr, restore_first } => {
                let inf = self.inferior.unwrap();
                match restore_first {
                    Some(orig) => {
                        // Restore the original byte before stepping over it.
                        match inf.write_byte(addr, orig) {
                            Ok(_) => {},
                            Err(e) => {
                                return Err(e);
                            },
                        }
                    },
                    None => {},
                }
                let st = match inf.step() {
                    Ok(st) => st,
                    Err(e) => {
                        return Err(e);
                    },
                };
                match st {
                    Status::Stopped(_, _) => {
                        // Re-install the trap byte before any resume, so
                        // the breakpoint stays armed.
                        match inf.write_byte(addr, patch::BRK_BYTE) {
                            Ok(_) => {},
                            Err(e) => {
                                return Err(e);
                            },
                        }
                        let ghost mid = *self;
                        let _outcome = self.finish_pass_over(st);
                        let ghost mid2 = *self;
                        let r = self.resume_and_wait();
                        proof {
                            assert forall|a: usize|
                                old(self).breakpoints.contains_addr(a) implies self.breakpoints.entry_for(
                                a,
                            ).addr == a && self.breakpoints.entry_for(a).orig_byte == old(
                                self,
                            ).breakpoints.entry_for(a).orig_byte by {
                                assert(mid.breakpoints.contains_addr(a));
                                assert(mid2.breakpoints.contains_addr(a));
                                if a != addr {
                                    assert(mid.breakpoints.entry_for(a) == old(
                                        self,
                                    ).breakpoints.entry_for(a));
                                    assert(mid2.breakpoints.entry_for(a) == mid.breakpoints.entry_for(
                                        a,
                                    ));
                                }
                            }
                        }
                        r
                    },
                    _ => {
                        let ghost mid = *self;
                        let _outcome = self.finish_pass_over(st);
                        proof {
                            assert forall|a: usize|
                                old(self).breakpoints.contains_addr(a) implies self.breakpoints.entry_for(
                                a,
                            ).addr == a && self.breakpoints.entry_for(a).orig_byte == old(
                                self,
                            ).breakpoints.entry_for(a).orig_byte by {
                                assert(mid.breakpoints.contains_addr(a));
                                assert(self.breakpoints == mid.breakpoints);
                                if a != addr {
                                    assert(mid.breakpoints.entry_for(a) == old(
                                        self,
                                    ).breakpoints.entry_for(a));
                                }
                            }
                        }
                        Ok(st)
                    },
                }
            },
        }
    }

    /// Set a breakpoint at a resolved address. The request is recorded
    /// always; if a traced process exists and the address is new, the trap
    /// byte is patched in at once, so a breakpoint set at a stop is
    /// installed before the next resume. A duplicate address is a no-op.
    pub fn set_breakpoint_addr(&mut self, addr: usize) -> (r: Result<(), DebugError>)
        requires
            old(self).wf(),
            old(self).patches_consistent(),
        ensures
            final(self).wf(),
            final(self).target == old(self).target,
            final(self).state == old(self).state,
            final(self).inferior == old(self).inferior,
            final(self).stopped_rip == old(self).stopped_rip,
            final(self).breakpoints.contains_addr(addr),
            forall|a: usize|
                final(self).breakpoints.contains_addr(a) <==> old(self).breakpoints.contains_addr(
                    a,
                ) || a == addr,
            r matches Ok(()) ==> final(self).patches_consistent(),
            r matches Ok(()) && old(self).inferior is Some && !old(self).breakpoints.contains_addr(
                addr,
            ) ==> final(self).breakpoints.spec_is_installed(addr),
            old(self).breakpoints.contains_addr(addr) ==> r == Ok::<(), DebugError>(())
                && final(self).breakpoints == old(self).breakpoints,
            r matches Err(e) ==> e == DebugError::MemoryAccessFailure,
    {
        let (added, install_now) = self.request_breakpoint(addr);
        if !added {
            return Ok(());
        }
        if install_now {
            let inf = self.inferior.unwrap();
            match inf.write_byte(addr, patch::BRK_BYTE) {
                Ok(orig) => {
                    self.note_breakpoint_installed(addr, orig);
                    proof {
                        self.lemma_patches_consistent_after_install(*old(self), addr);
                    }
                    Ok(())
                },
                Err(e) => Err(e),
            }
        } else {
            // No process yet: the patch is deferred to process creation.
            proof {
                self.lemma_patches_consistent_uninstalled_new(*old(self), addr);
            }
            Ok(())
        }
    }

    /// Adding a breakpoint and installing it at once preserves the patch
    /// ordering invariant.
    proof fn lemma_patches_consistent_after_install(self, pre: Debugger, addr: usize)
        requires
            pre.wf(),
            pre.patches_consistent(),
            self.wf(),
            self.state == pre.state,
            self.breakpoints.spec_is_installed(addr),
            forall|a: usize|
                self.breakpoints.contains_addr(a) <==> pre.breakpoints.contains_addr(a) || a
                    == addr,
            forall|a: usize| a != addr ==> self.breakpoints.spec_is_installed(a)
                == pre.breakpoints.spec_is_installed(a),
        ensures
            self.patches_consistent(),
    {
        match self.state {
            ExecState::Running | ExecState::StoppedOther(_) => {
                assert forall|a: usize| self.breakpoints.contains_addr(a) implies self.breakpoints.spec_is_installed(a) by {
                    if a != addr {
                        let k = choose|k: int|
                            0 <= k < pre.breakpoints.bps@.len() && pre.breakpoints.bps@[k].addr
                                == a;
                        pre.breakpoints.lemma_index_unique(a, k);
                        assert(pre.breakpoints.spec_is_installed(a));
                    }
                }
                lemma_all_installed_from_addrs(self.breakpoints);
            },
            ExecState::StoppedAtBreakpoint(x) | ExecState::PassingBreakpoint(x) => {
                assert forall|a: usize| a != x && self.breakpoints.contains_addr(a) implies self.breakpoints.spec_is_installed(a) by {
                    if a != addr {
                        let k = choose|k: int|
                            0 <= k < pre.breakpoints.bps@.len() && pre.breakpoints.bps@[k].addr
                                == a;
                        pre.breakpoints.lemma_index_unique(a, k);
                        assert(pre.breakpoints.spec_is_installed(a));
                    }
                }
                crate::controller::lemma_all_installed_except_from_addrs(self.breakpoints, x);
            },
            _ => {},
        }
    }

    /// Adding an uninstalled breakpoint while no process exists preserves
    /// the patch ordering invariant, which constrains live states only.
    proof fn lemma_patches_consistent_uninstalled_new(self, pre: Debugger, addr: usize)
        requires
            pre.wf(),
            pre.patches_consistent(),
            pre.inferior is None,
            self.wf(),
            self.state == pre.state,
            self.inferior == pre.inferior,
        ensures
            self.patches_consistent(),
    {
    }

    /// Tear down any current process before a new run: terminate and reap
    /// it so that no zombie outlives the command. Exactly the session
    /// without a process remains.
    pub fn reset_for_run(&mut self)
        requires
            old(self).wf(),
        ensures
            final(self).wf(),
            final(self).patches_consistent(),
            final(self).state == ExecState::NoProcess,
            final(self).live_count() == 0,
            final(self).target == old(self).target,
            forall|a: usize|
                final(self).breakpoints.contains_addr(a) == old(self).breakpoints.contains_addr(a),
    {
        let prev = self.prepare_run();
        match prev {
            Some(pid) => {
                let inf = Inferior { pid };
                inf.kill();
            },
            None => {},
        }
    }

    /// The quit command: terminate and reap any live process and end the
    /// session. No process is left running or unreaped.
    pub fn quit_live(&mut self)
        requires
            old(self).wf(),
        ensures
            final(self).wf(),
            final(self).patches_consistent(),
            final(self).state == ExecState::Terminated,
            final(self).live_count() == 0,
            final(self).target == old(self).target,
    {
        let prev = self.quit();
        match prev {
            Some(pid) => {
                let inf = Inferior { pid };
                inf.kill();
            },
            None => {},
        }
    }
}


/// The instruction address a break target denotes under the given symbol
/// table: a raw address as itself when well formed; a line number through
/// the line table; any other token as a function name through the
/// function table.
pub open spec fn spec_resolve_target(table: SymbolTable, token: &str) -> Option<usize> {
    let bytes = token.spec_bytes();
    if spec_is_raw_marker(bytes) {
        if spec_radix_ok(bytes.skip(spec_hex_body_start(bytes)), 16) {
            Some(spec_radix_value(bytes.skip(spec_hex_body_start(bytes)), 16) as usize)
        } else {
            None
        }
    } else if spec_radix_ok(bytes, 10) {
        match spec_addr_for_line(table.lines@, spec_radix_value(bytes, 10) as usize) {
            Some(e) => Some(e.addr_lo),
            None => None,
        }
    } else {
        match spec_addr_for_function(table.functions@, token@) {
            Some(e) => Some(e.addr_lo),
            None => None,
        }
    }
}

/// Walk the live process's stack by frame-pointer links, resolving each
/// visited address against the symbol table.
fn walk_live(
    inf: &Inferior,
    table: &SymbolTable,
    rip: usize,
    rbp: usize,
    fuel: usize,
) -> (r: Result<Vec<Frame>, DebugError>)
    ensures
        r matches Ok(v) ==> v@.len() >= 1 && v@[v@.len() - 1].function@ == table.entry_function@
            && (forall|i: int|
            0 <= i < v@.len() - 1 ==> v@[i].function@ != table.entry_function@) && (forall|i: int|
            0 <= i < v@.len() ==> frame_resolved(*table, v@[i])),
        r matches Err(e) ==> e == DebugError::MemoryAccessFailure || e
            == DebugError::ResolutionFailure,
    decreases fuel,
{
    if fuel == 0 {
        return Err(DebugError::MemoryAccessFailure);
    }
    let f = match table.address_to_function(rip) {
        Some(f) => f,
        None => {
            return Err(DebugError::ResolutionFailure);
        },
    };
    let (file, line) = match table.address_to_line(rip) {
        Some(fl) => fl,
        None => {
            return Err(DebugError::ResolutionFailure);
        },
    };
    let is_entry = f == table.entry_function;
    let frame = Frame { function: f, file, line };
    proof {
        assert(frame_resolved(*table, frame)) by {
            assert({
                &&& (#[trigger] crate::symbols::spec_function_for_addr(table.functions@, rip))
                    matches Some(fe) && fe.name == frame.function
                &&& crate::symbols::spec_line_for_addr(table.lines@, rip) matches Some(le)
                    && le.file == frame.file && le.line == frame.line
            });
        }
    }
    if is_entry {
        let mut v: Vec<Frame> = Vec::new();
        v.push(frame);
        return Ok(v);
    }
    if rbp > usize::MAX - 8 {
        return Err(DebugError::MemoryAccessFailure);
    }
    let ret = match inf.read_word(rbp + 8) {
        Ok(w) => w as usize,
        Err(e) => {
            return Err(e);
        },
    };
    let caller = match inf.read_word(rbp) {
        Ok(w) => w as usize,
        Err(e) => {
            return Err(e);
        },
    };
    match walk_live(inf, table, ret, caller, fuel - 1) {
        Ok(mut rest) => {
            rest.insert(0, frame);
            Ok(rest)
        },
        Err(e) => Err(e),
    }
}

impl Debugger {
    /// The backtrace command: valid only from a stopped state. Walks the
    /// saved frame-pointer links from the current register snapshot and
    /// returns the ordered frames, ending at the entry function; every
    /// frame reported is one the symbol table vouches for.
    pub fn backtrace(&self, table: &SymbolTable) -> (r: Result<Vec<Frame>, DebugError>)
        requires
            self.wf(),
        ensures
            !(self.state matches ExecState::StoppedAtBreakpoint(_) || self.state
                matches ExecState::StoppedOther(_)) ==> r == Err::<Vec<Frame>, DebugError>(
                DebugError::InvalidCommand,
            ),
            r matches Err(e) ==> ((self.state matches ExecState::StoppedAtBreakpoint(_)
                || self.state matches ExecState::StoppedOther(_)) ==> e
                == DebugError::MemoryAccessFailure || e == DebugError::ResolutionFailure),
            r matches Ok(v) ==> v@.len() >= 1 && v@[v@.len() - 1].function@
                == table.entry_function@ && (forall|i: int|
                0 <= i < v@.len() - 1 ==> v@[i].function@ != table.entry_function@) && (
            forall|i: int| 0 <= i < v@.len() ==> frame_resolved(*table, v@[i])),
    {
        match self.state {
            ExecState::StoppedAtBreakpoint(_) => {},
            ExecState::StoppedOther(_) => {},
            _ => {
                return Err(DebugError::InvalidCommand);
            },
        }
        let inf = self.inferior.unwrap();
        let (rip, rbp) = match inf.read_frame_registers() {
            Ok(regs) => regs,
            Err(e) => {
                return Err(e);
            },
        };
        walk_live(&inf, table, rip, rbp, MAX_BACKTRACE_FRAMES)
    }

    /// The break command: parse the target, resolve it against the symbol
    /// table, and set a breakpoint at the resolved address, patching it
    /// into the live process at once if one exists. A target that cannot
    /// be resolved is reported without any change to the session.
    pub fn set_breakpoint(&mut self, table: &SymbolTable, token: &str) -> (r: Result<
        usize,
        DebugError,
    >)
        requires
            old(self).wf(),
            old(self).patches_consistent(),
        ensures
            final(self).wf(),
            final(self).target == old(self).target,
            final(self).state == old(self).state,
            final(self).inferior == old(self).inferior,
            final(self).stopped_rip == old(self).stopped_rip,
            match spec_resolve_target(*table, token) {
                Some(addr) => {
                    &&& (r == Ok::<usize, DebugError>(addr) || r == Err::<usize, DebugError>(
                        DebugError::MemoryAccessFailure,
                    ))
                    &&& final(self).breakpoints.contains_addr(addr)
                    &&& (r matches Ok(_) ==> final(self).patches_consistent())
                    &&& (r matches Ok(_) && old(self).inferior is Some && !old(self).breakpoints.contains_addr(addr) ==> final(self).breakpoints.spec_is_installed(
                        addr,
                    ))
                },
                None => r == Err::<usize, DebugError>(DebugError::ResolutionFailure) && final(self).breakpoints == old(self).breakpoints && final(self).patches_consistent(),
            },
    {
        let target = match parse_break_target(token) {
            Ok(t) => t,
            Err(e) => {
                return Err(e);
            },
        };
        proof {
            crate::parse::lemma_radix_value_nonneg(
                token.spec_bytes().skip(spec_hex_body_start(token.spec_bytes())),
                16,
            );
            crate::parse::lemma_radix_value_nonneg(token.spec_bytes(), 10);
        }
        let addr = match target {
            BreakTarget::RawAddress(a) => a,
            BreakTarget::Line(line) => {
                match table.line_to_address(line) {
                    Some(a) => a,
                    None => {
                        return Err(DebugError::ResolutionFailure);
                    },
                }
            },
            BreakTarget::Function(name) => {
                match table.function_to_address(&name) {
                    Some(a) => a,
                    None => {
                        return Err(DebugError::ResolutionFailure);
                    },
                }
            },
        };
        match self.set_breakpoint_addr(addr) {
            Ok(()) => Ok(addr),
            Err(e) => Err(e),
        }
    }
}

} // verus!
