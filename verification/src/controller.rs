//! The execution controller: the session state machine.
//!
//! The controller owns at most one traced process, the breakpoint
//! registry, and the last reported stop address. Every decision it makes
//! — how a wait status is classified, what the continue protocol must do,
//! what a run or quit must tear down — is a function from plain values to
//! plain values and is verified here. The operations that touch the
//! operating system (resume, single-step, memory patching) are performed
//! by callers between these transitions, following the decisions returned
//! by them.

use vstd::prelude::*;

use crate::breakpoint::BreakpointRegistry;
use crate::inferior::Inferior;

verus! {

/// The observable state of the traced process after one blocking wait:
/// stopped by a signal at an instruction pointer, exited with a code, or
/// terminated by a signal.
#[derive(Clone, Copy, PartialEq, Eq, Structural, Debug)]
pub enum Status {
    /// Stopped by the given signal; the second field is the current
    /// instruction pointer.
    Stopped(i32, usize),
    /// Exited normally with the given exit code.
    Exited(i32),
    /// Terminated by the given signal.
    Signaled(i32),
}

/// The lifecycle state of one debugging session.
///
/// `PassingBreakpoint` is the explicit intermediate of the continue
/// protocol: the original byte at the recorded address is restored and the
/// process is about to be single-stepped past it; the trap byte must be
/// re-installed before any further resume.
#[derive(Clone, Copy, PartialEq, Eq, Structural, Debug)]
pub enum ExecState {
    /// No traced process exists.
    NoProcess,
    /// The traced process is executing (or about to be resumed).
    Running,
    /// Stopped at a registered breakpoint address.
    StoppedAtBreakpoint(usize),
    /// Stopped at an address that is not a registered breakpoint.
    StoppedOther(usize),
    /// In the middle of stepping over the breakpoint at the given address.
    PassingBreakpoint(usize),
    /// The traced process exited with the given code.
    Exited(i32),
    /// The session was ended, or the process was terminated by a signal.
    Terminated,
}

/// The error taxonomy of the session.
#[derive(Clone, Copy, PartialEq, Eq, Structural, Debug)]
pub enum DebugError {
    /// The child could not be created or never reached its initial trap.
    SpawnFailure,
    /// A break target or an address could not be mapped to source info.
    ResolutionFailure,
    /// A register or memory access on the traced process failed.
    MemoryAccessFailure,
    /// The operation is not valid in the current state.
    InvalidCommand,
}

/// How one wait status is understood, given the registered breakpoints.
#[derive(Clone, Copy, PartialEq, Eq, Structural, Debug)]
pub enum StopClass {
    /// The reported instruction pointer is one byte past a registered
    /// breakpoint address: a breakpoint hit at that address.
    BreakpointHit(usize, i32),
    /// A stop unrelated to any registered breakpoint.
    PlainStop(usize, i32),
    /// The process exited with the given code.
    ProcessExited(i32),
    /// The process was terminated by the given signal.
    ProcessSignaled(i32),
}

/// What one wait status means. A trap consumes the trap instruction
/// before the instruction pointer is sampled, so a stop whose pointer is
/// one byte past a registered address is a hit at that address; any other
/// stop is reported at the sampled pointer unchanged.
pub open spec fn spec_classify_stop(reg: BreakpointRegistry, status: Status) -> StopClass {
    match status {
        Status::Exited(code) => StopClass::ProcessExited(code),
        Status::Signaled(sig) => StopClass::ProcessSignaled(sig),
        Status::Stopped(sig, rip) => if rip >= 1 && reg.contains_addr((rip - 1) as usize) {
            StopClass::BreakpointHit((rip - 1) as usize, sig)
        } else {
            StopClass::PlainStop(rip, sig)
        },
    }
}

/// Classify one wait status against the registered breakpoints.
pub fn classify_stop(reg: &BreakpointRegistry, status: Status) -> (r: StopClass)
    requires
        reg.wf(),
    ensures
        r == spec_classify_stop(*reg, status),
{
    match status {
        Status::Exited(code) => StopClass::ProcessExited(code),
        Status::Signaled(sig) => StopClass::ProcessSignaled(sig),
        Status::Stopped(sig, rip) => {
            if rip >= 1 && reg.contains(rip - 1) {
                StopClass::BreakpointHit(rip - 1, sig)
            } else {
                StopClass::PlainStop(rip, sig)
            }
        },
    }
}

/// Every registered breakpoint other than `a` is installed.
pub open spec fn all_installed_except(reg: BreakpointRegistry, a: usize) -> bool {
    forall|i: int|
        0 <= i < reg.spec_len() && (#[trigger] reg.spec_at(i)).addr != a ==> reg.spec_at(
            i,
        ).installed
}

/// A registry whose every registered address is installed is installed at
/// every record.
pub proof fn lemma_all_installed_from_addrs(reg: BreakpointRegistry)
    requires
        reg.wf(),
        forall|a: usize| reg.contains_addr(a) ==> reg.spec_is_installed(a),
    ensures
        reg.all_installed(),
{
    assert forall|k: int| 0 <= k < reg.bps@.len() implies (#[trigger] reg.bps@[k]).installed by {
        let b = reg.bps@[k].addr;
        reg.lemma_index_unique(b, k);
        assert(reg.spec_is_installed(b));
    }
}

/// A registry whose every registered address but `x` is installed is
/// installed at every record but the one for `x`.
pub proof fn lemma_all_installed_except_from_addrs(reg: BreakpointRegistry, x: usize)
    requires
        reg.wf(),
        forall|a: usize| a != x && reg.contains_addr(a) ==> reg.spec_is_installed(a),
    ensures
        all_installed_except(reg, x),
{
    assert forall|k: int|
        0 <= k < reg.spec_len() && (#[trigger] reg.spec_at(k)).addr != x implies reg.spec_at(
        k,
    ).installed by {
        let b = reg.spec_at(k).addr;
        reg.lemma_index_unique(b, k);
        assert(reg.spec_is_installed(b));
    }
}

/// The patch work the caller must perform after a breakpoint hit: restore
/// the original byte at `addr` and rewind the instruction pointer to
/// `addr`.
#[derive(Clone, Copy, PartialEq, Eq, Structural, Debug)]
pub struct BreakpointRewind {
    pub addr: usize,
    pub orig_byte: u8,
}

/// What a continue command must do first.
#[derive(Clone, Copy, PartialEq, Eq, Structural, Debug)]
pub enum ContinueBegin {
    /// The stop address is a registered breakpoint: single-step once, then
    /// re-install the trap byte there before resuming. If the trap byte is
    /// currently installed at that address, first restore the original
    /// byte given here.
    PassBreakpoint { addr: usize, restore_first: Option<u8> },
    /// The stop address is not a registered breakpoint: resume directly.
    ResumeOnly,
}

/// Whether the single step of the continue protocol ended the process or
/// left it ready to be resumed.
#[derive(Clone, Copy, PartialEq, Eq, Structural, Debug)]
pub enum PassOutcome {
    /// The step reported an exit or a termination; do not resume further.
    Ended,
    /// The breakpoint is re-armed; resume the process.
    ReadyToResume,
}

/// The debugging session: the execution controller's state.
pub struct Debugger {
    /// Path of the target executable.
    pub target: String,
    /// The breakpoint registry of this session.
    pub breakpoints: BreakpointRegistry,
    /// The traced process, if one exists. Owned exclusively here: at most
    /// one is ever live per session.
    pub inferior: Option<Inferior>,
    /// The lifecycle state.
    pub state: ExecState,
    /// The last reported stop address.
    pub stopped_rip: usize,
}

impl Debugger {
    /// How many traced processes this session holds live.
    pub open spec fn live_count(self) -> nat {
        match self.inferior {
            Some(_) => 1nat,
            None => 0nat,
        }
    }

    /// Structural consistency of the session.
    pub open spec fn wf(self) -> bool {
        &&& self.breakpoints.wf()
        &&& (self.state is NoProcess || self.state is Exited || self.state is Terminated)
            <==> self.inferior is None
        &&& self.state matches ExecState::StoppedAtBreakpoint(a) ==> self.breakpoints.contains_addr(
            a,
        ) && self.stopped_rip == a
        &&& self.state matches ExecState::PassingBreakpoint(a) ==> self.breakpoints.contains_addr(
            a,
        ) && self.stopped_rip == a
        &&& self.state matches ExecState::StoppedOther(a) ==> self.stopped_rip == a
    }

    /// The ordering invariant on patches: no resume or step happens while
    /// a patch for the current stop address is half-applied. While the
    /// process runs, every registered breakpoint is installed; while it
    /// stands at (or is being stepped past) a breakpoint, every other
    /// registered breakpoint is installed.
    pub open spec fn patches_consistent(self) -> bool {
        match self.state {
            ExecState::Running => self.breakpoints.all_installed(),
            ExecState::StoppedOther(_) => self.breakpoints.all_installed(),
            ExecState::StoppedAtBreakpoint(a) => all_installed_except(self.breakpoints, a),
            ExecState::PassingBreakpoint(a) => all_installed_except(self.breakpoints, a),
            _ => true,
        }
    }

    /// At most one traced process is ever live in a session, whatever its
    /// state.
    pub proof fn lemma_at_most_one_live(self)
        ensures
            self.live_count() <= 1,
    {
    }

    /// Start a session for the given target executable: no process, no
    /// breakpoints.
    pub fn new(target: String) -> (d: Debugger)
        ensures
            d.wf(),
            d.patches_consistent(),
            d.target == target,
            d.state == ExecState::NoProcess,
            d.inferior is None,
            d.live_count() == 0,
            d.breakpoints.spec_len() == 0,
            forall|a: usize| !d.breakpoints.contains_addr(a),
    {
        Debugger {
            target,
            breakpoints: BreakpointRegistry::new(),
            inferior: None,
            state: ExecState::NoProcess,
            stopped_rip: 0,
        }
    }

    /// Register a breakpoint request at `addr`. A duplicate address is a
    /// no-op. The second result says whether the caller must patch the
    /// trap byte in now: exactly when the address is new and a traced
    /// process exists.
    pub fn request_breakpoint(&mut self, addr: usize) -> (r: (bool, bool))
        requires
            old(self).wf(),
        ensures
            final(self).wf(),
            r.0 == !old(self).breakpoints.contains_addr(addr),
            r.1 == (r.0 && old(self).inferior is Some),
            final(self).breakpoints.contains_addr(addr),
            !r.0 ==> final(self).breakpoints == old(self).breakpoints,
            r.0 ==> !final(self).breakpoints.spec_is_installed(addr),
            forall|a: usize|
                final(self).breakpoints.contains_addr(a) <==> old(self).breakpoints.contains_addr(
                    a,
                ) || a == addr,
            forall|a: usize| a != addr ==> final(self).breakpoints.spec_is_installed(a) == old(self).breakpoints.spec_is_installed(a),
            final(self).state == old(self).state,
            final(self).inferior == old(self).inferior,
            final(self).target == old(self).target,
            final(self).stopped_rip == old(self).stopped_rip,
    {
        let added = self.breakpoints.request(addr);
        proof {
            if added {
                let ghost reg = self.breakpoints;
                let ghost n = reg.spec_len() - 1;
                assert(reg.spec_at(n).addr == addr && !reg.spec_at(n).installed);
                reg.lemma_index_unique(addr, n);
                assert forall|a: usize| a != addr implies self.breakpoints.spec_is_installed(a)
                    == old(self).breakpoints.spec_is_installed(a) by {
                    if old(self).breakpoints.contains_addr(a) {
                        let j = choose|j: int|
                            0 <= j < old(self).breakpoints.bps@.len() && old(self).breakpoints.bps@[j].addr == a;
                        old(self).breakpoints.lemma_index_unique(a, j);
                        assert(self.breakpoints.spec_at(j) == old(self).breakpoints.spec_at(j));
                        self.breakpoints.lemma_index_unique(a, j);
                    } else {
                        if self.breakpoints.contains_addr(a) {
                            let j = choose|j: int|
                                0 <= j < self.breakpoints.bps@.len()
                                    && self.breakpoints.bps@[j].addr == a;
                            assert(j == n || old(self).breakpoints.bps@[j].addr == a);
                        }
                    }
                }
            }
        }
        let install_now = added && self.inferior.is_some();
        (added, install_now)
    }

    /// Record that the trap byte has been patched in at `addr`, replacing
    /// the byte `orig`.
    pub fn note_breakpoint_installed(&mut self, addr: usize, orig: u8)
        requires
            old(self).wf(),
            old(self).breakpoints.contains_addr(addr),
        ensures
            final(self).wf(),
            final(self).breakpoints.spec_is_installed(addr),
            final(self).breakpoints.entry_for(addr).orig_byte == orig,
            final(self).breakpoints.spec_len() == old(self).breakpoints.spec_len(),
            forall|a: usize|
                final(self).breakpoints.contains_addr(a) == old(self).breakpoints.contains_addr(a),
            forall|a: usize|
                a != addr && old(self).breakpoints.contains_addr(a)
                    ==> final(self).breakpoints.entry_for(a) == old(self).breakpoints.entry_for(a),
            forall|a: usize| a != addr ==> final(self).breakpoints.spec_is_installed(a) == old(self).breakpoints.spec_is_installed(a),
            old(self).breakpoints.all_installed() ==> final(self).breakpoints.all_installed(),
            final(self).state == old(self).state,
            final(self).inferior == old(self).inferior,
            final(self).target == old(self).target,
            final(self).stopped_rip == old(self).stopped_rip,
    {
        self.breakpoints.note_installed(addr, orig);
    }

    /// The addresses to patch when a process is created: every registered
    /// breakpoint, in registration order.
    pub fn install_targets(&self) -> (r: Vec<usize>)
        ensures
            r@.len() == self.breakpoints.spec_len(),
            forall|i: int| 0 <= i < r@.len() ==> r@[i] == self.breakpoints.spec_at(i).addr,
    {
        let n = self.breakpoints.len();
        let mut r: Vec<usize> = Vec::new();
        let mut i: usize = 0;
        while i < n
            invariant
                n == self.breakpoints.spec_len(),
                i <= n,
                r@.len() == i,
                forall|j: int| 0 <= j < i ==> r@[j] == self.breakpoints.spec_at(j).addr,
            decreases n - i,
        {
            r.push(self.breakpoints.get(i).addr);
            i += 1;
        }
        r
    }

    /// Tear down before a new run: give up the current traced process, if
    /// any, so that the caller can terminate and reap it. Afterwards no
    /// process is live and no patch is considered installed (patches die
    /// with the process). Returns the process id to terminate, if one
    /// existed.
    pub fn prepare_run(&mut self) -> (prev: Option<i32>)
        requires
            old(self).wf(),
        ensures
            final(self).wf(),
            final(self).patches_consistent(),
            final(self).live_count() == 0,
            final(self).state == ExecState::NoProcess,
            final(self).inferior is None,
            prev == match old(self).inferior {
                Some(inf) => Some(inf.pid),
                None => None::<i32>,
            },
            final(self).breakpoints.spec_len() == old(self).breakpoints.spec_len(),
            forall|a: usize|
                final(self).breakpoints.contains_addr(a) == old(self).breakpoints.contains_addr(a),
            forall|a: usize| !final(self).breakpoints.spec_is_installed(a),
            final(self).target == old(self).target,
    {
        let prev = match &self.inferior {
            Some(inf) => Some(inf.pid),
            None => None,
        };
        self.inferior = None;
        self.state = ExecState::NoProcess;
        self.stopped_rip = 0;
        self.breakpoints.mark_all_uninstalled();
        prev
    }

    /// Adopt a freshly spawned traced process. Exactly one process is live
    /// afterwards, whatever was live before the preceding tear-down.
    pub fn on_process_spawned(&mut self, pid: i32)
        requires
            old(self).wf(),
            old(self).state == ExecState::NoProcess,
        ensures
            final(self).wf(),
            final(self).live_count() == 1,
            final(self).inferior == Some(Inferior { pid }),
            final(self).state == ExecState::Running,
            final(self).breakpoints == old(self).breakpoints,
            final(self).target == old(self).target,
    {
        self.inferior = Some(Inferior { pid });
        self.state = ExecState::Running;
    }

    /// Digest one wait status observed after a resume. On a breakpoint
    /// hit the registry marks the hit address restored, and the result
    /// tells the caller to write the original byte back at that address
    /// and rewind the instruction pointer there; otherwise the result is
    /// `None` and no patching is needed.
    pub fn on_wait_status(&mut self, status: Status) -> (r: Option<BreakpointRewind>)
        requires
            old(self).wf(),
            old(self).state == ExecState::Running,
            old(self).patches_consistent(),
        ensures
            final(self).wf(),
            final(self).patches_consistent(),
            final(self).target == old(self).target,
            forall|a: usize|
                final(self).breakpoints.contains_addr(a) == old(self).breakpoints.contains_addr(a),
            match spec_classify_stop(old(self).breakpoints, status) {
                StopClass::ProcessExited(code) => {
                    &&& final(self).state == ExecState::Exited(code)
                    &&& final(self).inferior is None
                    &&& final(self).live_count() == 0
                    &&& final(self).breakpoints == old(self).breakpoints
                    &&& r is None
                },
                StopClass::ProcessSignaled(_) => {
                    &&& final(self).state == ExecState::Terminated
                    &&& final(self).inferior is None
                    &&& final(self).live_count() == 0
                    &&& final(self).breakpoints == old(self).breakpoints
                    &&& r is None
                },
                StopClass::BreakpointHit(a, _) => {
                    &&& final(self).state == ExecState::StoppedAtBreakpoint(a)
                    &&& final(self).stopped_rip == a
                    &&& final(self).inferior == old(self).inferior
                    &&& !final(self).breakpoints.spec_is_installed(a)
                    &&& final(self).breakpoints.entry_for(a).orig_byte == old(self).breakpoints.entry_for(a).orig_byte
                    &&& forall|x: usize|
                        x != a && old(self).breakpoints.contains_addr(x) ==> final(self).breakpoints.entry_for(x) == old(self).breakpoints.entry_for(x)
                    &&& r == Some(
                        BreakpointRewind {
                            addr: a,
                            orig_byte: old(self).breakpoints.entry_for(a).orig_byte,
                        },
                    )
                },
                StopClass::PlainStop(rip, _) => {
                    &&& final(self).state == ExecState::StoppedOther(rip)
                    &&& final(self).stopped_rip == rip
                    &&& final(self).inferior == old(self).inferior
                    &&& final(self).breakpoints == old(self).breakpoints
                    &&& r is None
                },
            },
    {
        let class = classify_stop(&self.breakpoints, status);
        match class {
            StopClass::ProcessExited(code) => {
                self.inferior = None;
                self.state = ExecState::Exited(code);
                None
            },
            StopClass::ProcessSignaled(_sig) => {
                self.inferior = None;
                self.state = ExecState::Terminated;
                None
            },
            StopClass::BreakpointHit(a, _sig) => {
                let orig = match self.breakpoints.installed_orig_byte(a) {
                    Some(b) => b,
                    None => {
                        // Unreachable while running: every registered
                        // breakpoint is installed before a resume.
                        proof {
                            let ghost reg = self.breakpoints;
                            let ghost j = choose|j: int|
                                0 <= j < reg.spec_len() && reg.spec_at(j).addr == a;
                            reg.lemma_index_unique(a, j);
                        }
                        0
                    },
                };
                self.breakpoints.note_uninstalled(a);
                self.state = ExecState::StoppedAtBreakpoint(a);
                self.stopped_rip = a;
                proof {
                    assert(all_installed_except(self.breakpoints, a)) by {
                        assert forall|i: int|
                            0 <= i < self.breakpoints.spec_len() && (#[trigger] self.breakpoints.spec_at(
                                i,
                            )).addr != a implies self.breakpoints.spec_at(i).installed by {
                            assert(old(self).breakpoints.spec_at(i).addr == self.breakpoints.spec_at(i).addr);
                            assert(old(self).breakpoints.spec_at(i).installed);
                            assert(self.breakpoints.spec_at(i) == old(self).breakpoints.spec_at(i));
                        }
                    }
                }
                Some(BreakpointRewind { addr: a, orig_byte: orig })
            },
            StopClass::PlainStop(rip, _sig) => {
                self.state = ExecState::StoppedOther(rip);
                self.stopped_rip = rip;
                None
            },
        }
    }

    /// Begin a continue command. Valid only from a stopped state;
    /// otherwise the session is unchanged and the command is rejected. If
    /// the stop address is a registered breakpoint the session enters the
    /// explicit pass-over state and the caller must single-step before
    /// resuming (restoring the original byte first if the trap is
    /// currently installed there); otherwise the process may be resumed
    /// directly.
    pub fn begin_continue(&mut self) -> (r: Result<ContinueBegin, DebugError>)
        requires
            old(self).wf(),
            old(self).patches_consistent(),
        ensures
            final(self).wf(),
            final(self).patches_consistent(),
            final(self).target == old(self).target,
            final(self).inferior == old(self).inferior,
            forall|a: usize|
                final(self).breakpoints.contains_addr(a) == old(self).breakpoints.contains_addr(a),
            match old(self).state {
                ExecState::StoppedAtBreakpoint(a) => {
                    &&& r == Ok::<ContinueBegin, DebugError>(
                        ContinueBegin::PassBreakpoint {
                            addr: a,
                            restore_first: if old(self).breakpoints.spec_is_installed(a) {
                                Some(old(self).breakpoints.entry_for(a).orig_byte)
                            } else {
                                None::<u8>
                            },
                        },
                    )
                    &&& final(self).state == ExecState::PassingBreakpoint(a)
                    &&& !final(self).breakpoints.spec_is_installed(a)
                    &&& final(self).breakpoints.entry_for(a).orig_byte == old(self).breakpoints.entry_for(a).orig_byte
                    &&& forall|x: usize|
                        x != a && old(self).breakpoints.contains_addr(x) ==> final(self).breakpoints.entry_for(x) == old(self).breakpoints.entry_for(x)
                    &&& all_installed_except(final(self).breakpoints, a)
                },
                ExecState::StoppedOther(p) => {
                    if old(self).breakpoints.contains_addr(p) {
                        &&& r == Ok::<ContinueBegin, DebugError>(
                            ContinueBegin::PassBreakpoint {
                                addr: p,
                                restore_first: if old(self).breakpoints.spec_is_installed(p) {
                                    Some(old(self).breakpoints.entry_for(p).orig_byte)
                                } else {
                                    None::<u8>
                                },
                            },
                        )
                        &&& final(self).state == ExecState::PassingBreakpoint(p)
                        &&& !final(self).breakpoints.spec_is_installed(p)
                        &&& final(self).breakpoints.entry_for(p).orig_byte == old(self).breakpoints.entry_for(p).orig_byte
                        &&& forall|x: usize|
                            x != p && old(self).breakpoints.contains_addr(x) ==> final(self).breakpoints.entry_for(x) == old(self).breakpoints.entry_for(x)
                        &&& all_installed_except(final(self).breakpoints, p)
                    } else {
                        &&& r == Ok::<ContinueBegin, DebugError>(ContinueBegin::ResumeOnly)
                        &&& final(self).state == ExecState::Running
                        &&& final(self).breakpoints == old(self).breakpoints
                    }
                },
                _ => {
                    &&& r == Err::<ContinueBegin, DebugError>(DebugError::InvalidCommand)
                    &&& *final(self) == *old(self)
                },
            },
    {
        let stop_addr = match self.state {
            ExecState::StoppedAtBreakpoint(a) => a,
            ExecState::StoppedOther(p) => p,
            _ => {
                return Err(DebugError::InvalidCommand);
            },
        };
        if self.breakpoints.contains(stop_addr) {
            let restore_first = match self.breakpoints.installed_orig_byte(stop_addr) {
                Some(orig) => {
                    self.breakpoints.note_uninstalled(stop_addr);
                    Some(orig)
                },
                None => None,
            };
            proof {
                assert(all_installed_except(self.breakpoints, stop_addr)) by {
                    assert forall|i: int|
                        0 <= i < self.breakpoints.spec_len() && (#[trigger] self.breakpoints.spec_at(
                            i,
                        )).addr != stop_addr implies self.breakpoints.spec_at(i).installed by {
                        assert(old(self).breakpoints.spec_at(i).addr == self.breakpoints.spec_at(i).addr);
                        assert(old(self).breakpoints.spec_at(i).installed);
                        assert(self.breakpoints.spec_at(i) == old(self).breakpoints.spec_at(i));
                    }
                }
            }
            self.state = ExecState::PassingBreakpoint(stop_addr);
            Ok(ContinueBegin::PassBreakpoint { addr: stop_addr, restore_first })
        } else {
            self.state = ExecState::Running;
            Ok(ContinueBegin::ResumeOnly)
        }
    }

    /// Digest the status of the single step that passed over the
    /// breakpoint. If the step ended the process, report that and stop
    /// here; otherwise the trap byte is re-armed at the breakpoint (the
    /// caller has just written it back) and the process is ready to be
    /// resumed. Re-arming is unconditional on the stopped path: hitting
    /// the same breakpoint on a later pass traps again.
    pub fn finish_pass_over(&mut self, step_status: Status) -> (r: PassOutcome)
        requires
            old(self).wf(),
            old(self).patches_consistent(),
            old(self).state matches ExecState::PassingBreakpoint(_),
        ensures
            final(self).wf(),
            final(self).patches_consistent(),
            final(self).target == old(self).target,
            forall|a: usize|
                final(self).breakpoints.contains_addr(a) == old(self).breakpoints.contains_addr(a),
            match step_status {
                Status::Exited(code) => {
                    &&& r == PassOutcome::Ended
                    &&& final(self).state == ExecState::Exited(code)
                    &&& final(self).live_count() == 0
                    &&& final(self).breakpoints == old(self).breakpoints
                },
                Status::Signaled(_) => {
                    &&& r == PassOutcome::Ended
                    &&& final(self).state == ExecState::Terminated
                    &&& final(self).live_count() == 0
                    &&& final(self).breakpoints == old(self).breakpoints
                },
                Status::Stopped(_, _) => {
                    &&& r == PassOutcome::ReadyToResume
                    &&& final(self).state == ExecState::Running
                    &&& final(self).inferior == old(self).inferior
                    &&& (old(self).state matches ExecState::PassingBreakpoint(a) ==> final(self).breakpoints.spec_is_installed(a)
                        && final(self).breakpoints.entry_for(a).orig_byte == old(self).breakpoints.entry_for(a).orig_byte && forall|x: usize|
                            x != a && old(self).breakpoints.contains_addr(x) ==> final(self).breakpoints.entry_for(x) == old(self).breakpoints.entry_for(x))
                    &&& final(self).breakpoints.all_installed()
                },
            },
    {
        let a = match self.state {
            ExecState::PassingBreakpoint(a) => a,
            _ => {
                proof {
                    assert(false);
                }
                0
            },
        };
        match step_status {
            Status::Exited(code) => {
                self.inferior = None;
                self.state = ExecState::Exited(code);
                PassOutcome::Ended
            },
            Status::Signaled(_sig) => {
                self.inferior = None;
                self.state = ExecState::Terminated;
                PassOutcome::Ended
            },
            Status::Stopped(_sig, _rip) => {
                self.breakpoints.note_reinstalled(a);
                self.state = ExecState::Running;
                proof {
                    assert(self.breakpoints.all_installed()) by {
                        assert forall|i: int|
                            0 <= i < self.breakpoints.bps@.len() implies (
                        #[trigger] self.breakpoints.bps@[i]).installed by {
                            let b = self.breakpoints.spec_at(i).addr;
                            if b == a {
                                self.breakpoints.lemma_index_unique(a, i);
                            } else {
                                assert(old(self).breakpoints.spec_at(i).addr == b);
                                assert(old(self).breakpoints.spec_at(i).installed);
                                assert(self.breakpoints.spec_at(i) == old(self).breakpoints.spec_at(i));
                            }
                        }
                    }
                }
                PassOutcome::ReadyToResume
            },
        }
    }

    /// End the session: give up any live process so that the caller can
    /// terminate and reap it. No process is live afterwards and the
    /// session is terminated.
    pub fn quit(&mut self) -> (prev: Option<i32>)
        requires
            old(self).wf(),
        ensures
            final(self).wf(),
            final(self).patches_consistent(),
            final(self).live_count() == 0,
            final(self).state == ExecState::Terminated,
            prev == match old(self).inferior {
                Some(inf) => Some(inf.pid),
                None => None::<i32>,
            },
            final(self).target == old(self).target,
            forall|a: usize|
                final(self).breakpoints.contains_addr(a) == old(self).breakpoints.contains_addr(a),
    {
        let prev = match &self.inferior {
            Some(inf) => Some(inf.pid),
            None => None,
        };
        self.inferior = None;
        self.state = ExecState::Terminated;
        self.breakpoints.mark_all_uninstalled();
        prev
    }
}

} // verus!
