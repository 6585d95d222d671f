//! The traced-process handle.
//!
//! An `Inferior` owns the operating-system process id of the debuggee.
//! Its blocking operations (wait, resume, single-step, register and
//! memory access) are thin compositions over the tracing wrappers; the
//! decisions about what to do with their results belong to the execution
//! controller. Any tracing failure below spawn is escalated to the caller
//! as a memory-access failure: a half-applied patch state cannot be
//! safely continued from.

use vstd::prelude::*;

use crate::controller::DebugError;
use crate::controller::Status;
use crate::patch;
use crate::trace;

verus! {

/// Handle to the traced child process.
#[derive(Clone, Copy, PartialEq, Eq, Structural, Debug)]
pub struct Inferior {
    pub pid: i32,
}

impl Inferior {
    /// Adopt a freshly spawned child that was created with tracing
    /// requested before its program image executes, and block until it
    /// reports its initial trap. Returns `None` if the first wait result
    /// is not a trap-stop or the wait itself fails.
    pub fn new(pid: i32) -> (r: Option<Inferior>)
        ensures
            r matches Some(inf) ==> inf.pid == pid,
    {
        match trace::waitpid_raw(pid) {
            Ok(trace::WaitEvent::Stopped(_sig)) => Some(Inferior { pid }),
            _ => None,
        }
    }

    /// The process id of this inferior.
    pub fn pid(&self) -> (r: i32)
        ensures
            r == self.pid,
    {
        self.pid
    }

    /// Block until the traced process changes state, and report the state
    /// with the sampled instruction pointer on a stop.
    pub fn wait(&self) -> (r: Result<Status, DebugError>)
        ensures
            r matches Err(e) ==> e == DebugError::MemoryAccessFailure,
    {
        match trace::waitpid_raw(self.pid) {
            Ok(trace::WaitEvent::Exited(code)) => Ok(Status::Exited(code)),
            Ok(trace::WaitEvent::Signaled(sig)) => Ok(Status::Signaled(sig)),
            Ok(trace::WaitEvent::Stopped(sig)) => {
                let regs = match trace::ptrace_getregs(self.pid) {
                    Ok(regs) => regs,
                    Err(_) => {
                        return Err(DebugError::MemoryAccessFailure);
                    },
                };
                let rip = trace::regs_rip(&regs);
                Ok(Status::Stopped(sig, rip as usize))
            },
            Ok(trace::WaitEvent::Other) => Err(DebugError::MemoryAccessFailure),
            Err(_) => Err(DebugError::MemoryAccessFailure),
        }
    }

    /// Let the traced process run until its next stop or end, and block
    /// for that event.
    pub fn cont_exec(&self) -> (r: Result<Status, DebugError>)
        ensures
            r matches Err(e) ==> e == DebugError::MemoryAccessFailure,
    {
        match trace::ptrace_cont(self.pid) {
            Ok(()) => self.wait(),
            Err(_) => Err(DebugError::MemoryAccessFailure),
        }
    }

    /// Resume the traced process for exactly one machine instruction and
    /// block for the resulting event.
    pub fn step(&self) -> (r: Result<Status, DebugError>)
        ensures
            r matches Err(e) ==> e == DebugError::MemoryAccessFailure,
    {
        match trace::ptrace_step(self.pid) {
            Ok(()) => self.wait(),
            Err(_) => Err(DebugError::MemoryAccessFailure),
        }
    }

    /// Read the registers and report the current instruction pointer and
    /// frame base pointer.
    pub fn read_frame_registers(&self) -> (r: Result<(usize, usize), DebugError>)
        ensures
            r matches Err(e) ==> e == DebugError::MemoryAccessFailure,
    {
        match trace::ptrace_getregs(self.pid) {
            Ok(regs) => {
                let rip = trace::regs_rip(&regs);
                let rbp = trace::regs_rbp(&regs);
                Ok((rip as usize, rbp as usize))
            },
            Err(_) => Err(DebugError::MemoryAccessFailure),
        }
    }

    /// Rewind (or set) the traced process's instruction pointer.
    pub fn set_rip(&self, addr: usize) -> (r: Result<(), DebugError>)
        ensures
            r matches Err(e) ==> e == DebugError::MemoryAccessFailure,
    {
        let regs = match trace::ptrace_getregs(self.pid) {
            Ok(regs) => regs,
            Err(_) => {
                return Err(DebugError::MemoryAccessFailure);
            },
        };
        let updated = trace::regs_with_rip(regs, addr as u64);
        match trace::ptrace_setregs(self.pid, updated) {
            Ok(()) => Ok(()),
            Err(_) => Err(DebugError::MemoryAccessFailure),
        }
    }

    /// Read one machine word of the traced process's memory.
    pub fn read_word(&self, addr: usize) -> (r: Result<u64, DebugError>)
        ensures
            r matches Err(e) ==> e == DebugError::MemoryAccessFailure,
    {
        match trace::ptrace_read_word(self.pid, addr) {
            Ok(w) => Ok(w),
            Err(_) => Err(DebugError::MemoryAccessFailure),
        }
    }

    /// Replace the byte of the traced process's memory at `addr` with
    /// `val` and return the byte that stood there, patching within the
    /// containing machine word by masking so that the other bytes of the
    /// word are untouched.
    pub fn write_byte(&self, addr: usize, val: u8) -> (r: Result<u8, DebugError>)
        ensures
            r matches Err(e) ==> e == DebugError::MemoryAccessFailure,
    {
        let aligned = patch::align_addr_to_word(addr);
        let off = patch::word_offset(addr);
        let word = match trace::ptrace_read_word(self.pid, aligned) {
            Ok(w) => w,
            Err(_) => {
                return Err(DebugError::MemoryAccessFailure);
            },
        };
        let orig = patch::byte_at(word, off);
        let updated = patch::set_byte(word, off, val);
        match trace::ptrace_write_word(self.pid, aligned, updated) {
            Ok(()) => Ok(orig),
            Err(_) => Err(DebugError::MemoryAccessFailure),
        }
    }

    /// Request immediate termination of the traced process and reap the
    /// resulting event. Benign if the process has already ended: a failed
    /// termination request is treated as a no-op, not an error.
    pub fn kill(&self) {
        match trace::kill_sigkill(self.pid) {
            Ok(()) => {
                // Reap whatever event the termination produced.
                let _ = trace::waitpid_raw(self.pid);
            },
            Err(_) => {
                // The process is already gone; nothing to reap here.
            },
        }
    }
}

} // verus!
