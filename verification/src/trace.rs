//! Trusted tracing primitives.
//!
//! Every call into the operating-system tracing interface is made here,
//! one wrapper per outside function. Their results depend on the traced
//! process and the machine, so the wrappers promise nothing about the
//! values that come back; the callers state what holds whatever was
//! returned. Errors are reduced to the raw error number.

use vstd::prelude::*;

verus! {

/// The traced process's register file as the kernel hands it out; opaque
/// here, read and rebuilt only through the accessors below.
#[verifier::external_type_specification]
#[verifier::external_body]
pub struct ExUserRegs(libc::user_regs_struct);

/// What one blocking wait on the child reported, reduced to plain values:
/// the exit code, the terminating signal, the stopping signal, or a state
/// change this debugger does not handle.
#[derive(Clone, Copy, PartialEq, Eq, Structural, Debug)]
pub enum WaitEvent {
    Exited(i32),
    Signaled(i32),
    Stopped(i32),
    Other,
}

/// Relies on nix::sys::wait::waitpid (no options): blocks until the child
/// with the given process id changes state and reports how.
#[verifier::external_body]
pub(crate) fn waitpid_raw(pid: i32) -> (r: Result<WaitEvent, i32>) {
    match nix::sys::wait::waitpid(nix::unistd::Pid::from_raw(pid), None) {
        Ok(nix::sys::wait::WaitStatus::Exited(_, code)) => Ok(WaitEvent::Exited(code)),
        Ok(nix::sys::wait::WaitStatus::Signaled(_, sig, _)) => Ok(WaitEvent::Signaled(sig as i32)),
        Ok(nix::sys::wait::WaitStatus::Stopped(_, sig)) => Ok(WaitEvent::Stopped(sig as i32)),
        Ok(_) => Ok(WaitEvent::Other),
        Err(e) => Err(e as i32),
    }
}

/// Relies on nix::sys::ptrace::cont (no signal): lets the traced process
/// run until its next stop or end.
#[verifier::external_body]
pub(crate) fn ptrace_cont(pid: i32) -> (r: Result<(), i32>) {
    nix::sys::ptrace::cont(nix::unistd::Pid::from_raw(pid), None).map_err(|e| e as i32)
}

/// Relies on nix::sys::ptrace::step (no signal): resumes the traced
/// process for exactly one machine instruction.
#[verifier::external_body]
pub(crate) fn ptrace_step(pid: i32) -> (r: Result<(), i32>) {
    nix::sys::ptrace::step(nix::unistd::Pid::from_raw(pid), None).map_err(|e| e as i32)
}

/// Relies on nix::sys::ptrace::read: reads the machine word of the traced
/// process's memory at the given address.
#[verifier::external_body]
pub(crate) fn ptrace_read_word(pid: i32, addr: usize) -> (r: Result<u64, i32>) {
    match nix::sys::ptrace::read(nix::unistd::Pid::from_raw(pid), addr as _) {
        Ok(w) => Ok(w as u64),
        Err(e) => Err(e as i32),
    }
}

/// Relies on nix::sys::ptrace::write: writes one machine word into the
/// traced process's memory at the given address.
#[verifier::external_body]
pub(crate) fn ptrace_write_word(pid: i32, addr: usize, word: u64) -> (r: Result<(), i32>) {
    nix::sys::ptrace::write(
        nix::unistd::Pid::from_raw(pid),
        addr as _,
        word as libc::c_long,
    ).map_err(|e| e as i32)
}

/// Relies on nix::sys::ptrace::getregs: reads the traced process's
/// register file.
#[verifier::external_body]
pub(crate) fn ptrace_getregs(pid: i32) -> (r: Result<libc::user_regs_struct, i32>) {
    nix::sys::ptrace::getregs(nix::unistd::Pid::from_raw(pid)).map_err(|e| e as i32)
}

/// Relies on nix::sys::ptrace::setregs: overwrites the traced process's
/// register file.
#[verifier::external_body]
pub(crate) fn ptrace_setregs(pid: i32, regs: libc::user_regs_struct) -> (r: Result<(), i32>) {
    nix::sys::ptrace::setregs(nix::unistd::Pid::from_raw(pid), regs).map_err(|e| e as i32)
}

/// Relies on nix::sys::signal::kill with SIGKILL: requests immediate
/// termination of the process.
#[verifier::external_body]
pub(crate) fn kill_sigkill(pid: i32) -> (r: Result<(), i32>) {
    nix::sys::signal::kill(
        nix::unistd::Pid::from_raw(pid),
        nix::sys::signal::Signal::SIGKILL,
    ).map_err(|e| e as i32)
}

/// The instruction-pointer register of a register-file snapshot.
#[verifier::external_body]
pub(crate) fn regs_rip(regs: &libc::user_regs_struct) -> (r: u64) {
    regs.rip
}

/// The frame-base-pointer register of a register-file snapshot.
#[verifier::external_body]
pub(crate) fn regs_rbp(regs: &libc::user_regs_struct) -> (r: u64) {
    regs.rbp
}

/// The given register-file snapshot with its instruction pointer replaced.
#[verifier::external_body]
pub(crate) fn regs_with_rip(regs: libc::user_regs_struct, rip: u64) -> (r: libc::user_regs_struct) {
    let mut out = regs;
    out.rip = rip;
    out
}

} // verus!
