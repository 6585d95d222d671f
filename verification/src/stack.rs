//! The stack walker.
//!
//! From a stopped state the walker reconstructs the logical call chain by
//! following the standard frame-pointer convention: each frame's saved
//! base pointer sits at its own base-pointer address, and the return
//! address one word above it. Every visited instruction pointer is
//! resolved against the symbol table to a function name and a source
//! position; the walk ends at the designated entry function. An address
//! that cannot be resolved is a resolution error; an unreadable frame
//! link (or a walk deeper than the given bound, as from a corrupted
//! stack) is a memory-access error. Both are errors of the one command,
//! not of the session.

use vstd::prelude::*;

use crate::controller::DebugError;
use crate::symbols::spec_function_for_addr;
use crate::symbols::spec_line_for_addr;
use crate::symbols::SymbolTable;

verus! {

/// The deepest call chain a walk will follow before treating the stack
/// as corrupted.
pub const MAX_BACKTRACE_FRAMES: usize = 256;

/// One frame of a backtrace: the function, and the source file and line
/// of the instruction pointer inside it.
#[derive(Debug, PartialEq, Eq)]
pub struct Frame {
    pub function: String,
    pub file: String,
    pub line: usize,
}

/// A snapshot of the machine words of a process's memory that a stack
/// walk reads: pairs of (address, word stored there).
pub struct MemWords {
    pub words: Vec<(usize, usize)>,
}

/// The first recorded word at `addr`, if any.
pub open spec fn spec_mem_read(words: Seq<(usize, usize)>, addr: usize) -> Option<usize>
    decreases words.len(),
{
    if words.len() == 0 {
        None
    } else if words[0].0 == addr {
        Some(words[0].1)
    } else {
        spec_mem_read(words.drop_first(), addr)
    }
}

proof fn lemma_mem_read_step(words: Seq<(usize, usize)>, addr: usize, i: int)
    requires
        0 <= i < words.len(),
        words[i].0 != addr,
    ensures
        spec_mem_read(words.skip(i), addr) == spec_mem_read(words.skip(i + 1), addr),
{
    assert(words.skip(i)[0] == words[i]);
    assert(words.skip(i).drop_first() =~= words.skip(i + 1));
}

impl MemWords {
    /// Read the word recorded at `addr`, if any.
    pub fn read(&self, addr: usize) -> (r: Option<usize>)
        ensures
            r == spec_mem_read(self.words@, addr),
    {
        let n = self.words.len();
        let mut i: usize = 0;
        proof {
            assert(self.words@.skip(0) =~= self.words@);
        }
        while i < n
            invariant
                n == self.words@.len(),
                i <= n,
                spec_mem_read(self.words@, addr) == spec_mem_read(
                    self.words@.skip(i as int),
                    addr,
                ),
            decreases n - i,
        {
            let e = self.words[i];
            if e.0 == addr {
                proof {
                    assert(self.words@.skip(i as int)[0] == self.words@[i as int]);
                }
                return Some(e.1);
            }
            proof {
                lemma_mem_read_step(self.words@, addr, i as int);
            }
            i += 1;
        }
        proof {
            assert(self.words@.skip(n as int) =~= Seq::<(usize, usize)>::empty());
        }
        None
    }
}

/// The frames produced by walking from the given instruction pointer and
/// frame base: resolve the pointer, emit the frame, stop at the entry
/// function, otherwise follow the saved return address and base pointer.
pub open spec fn spec_walk(
    table: SymbolTable,
    mem: Seq<(usize, usize)>,
    rip: usize,
    rbp: usize,
    fuel: nat,
) -> Result<Seq<Frame>, DebugError>
    decreases fuel,
{
    if fuel == 0 {
        Err(DebugError::MemoryAccessFailure)
    } else {
        match spec_function_for_addr(table.functions@, rip) {
            None => Err(DebugError::ResolutionFailure),
            Some(f) => match spec_line_for_addr(table.lines@, rip) {
                None => Err(DebugError::ResolutionFailure),
                Some(l) => {
                    let frame = Frame { function: f.name, file: l.file, line: l.line };
                    if f.name@ == table.entry_function@ {
                        Ok(seq![frame])
                    } else if rbp > usize::MAX - 8 {
                        Err(DebugError::MemoryAccessFailure)
                    } else {
                        match spec_mem_read(mem, (rbp + 8) as usize) {
                            None => Err(DebugError::MemoryAccessFailure),
                            Some(ret) => match spec_mem_read(mem, rbp) {
                                None => Err(DebugError::MemoryAccessFailure),
                                Some(caller) => match spec_walk(
                                    table,
                                    mem,
                                    ret,
                                    caller,
                                    (fuel - 1) as nat,
                                ) {
                                    Ok(rest) => Ok(seq![frame] + rest),
                                    Err(e) => Err(e),
                                },
                            },
                        }
                    }
                },
            },
        }
    }
}

/// Walk a recorded memory snapshot: the executable twin of `spec_walk`,
/// used directly against a snapshot and as the reference for the live
/// walk.
pub fn walk_stack(
    table: &SymbolTable,
    mem: &MemWords,
    rip: usize,
    rbp: usize,
    fuel: usize,
) -> (r: Result<Vec<Frame>, DebugError>)
    ensures
        match r {
            Ok(v) => spec_walk(*table, mem.words@, rip, rbp, fuel as nat) == Ok::<
                Seq<Frame>,
                DebugError,
            >(v@),
            Err(e) => spec_walk(*table, mem.words@, rip, rbp, fuel as nat) == Err::<
                Seq<Frame>,
                DebugError,
            >(e),
        },
    decreases fuel,
{
    if fuel == 0 {
        return Err(DebugError::MemoryAccessFailure);
    }
    let f = match table.address_to_function(rip) {
        Some(f) => f,
        None => {
            return Err(DebugError::ResolutionFailure);
        },
    };
    let (file, line) = match table.address_to_line(rip) {
        Some(fl) => fl,
        None => {
            return Err(DebugError::ResolutionFailure);
        },
    };
    let is_entry = f == table.entry_function;
    let frame = Frame { function: f, file, line };
    if is_entry {
        let mut v: Vec<Frame> = Vec::new();
        v.push(frame);
        proof {
            let s = spec_walk(*table, mem.words@, rip, rbp, fuel as nat);
            assert(v@ =~= s.unwrap());
        }
        return Ok(v);
    }
    if rbp > usize::MAX - 8 {
        return Err(DebugError::MemoryAccessFailure);
    }
    let ret = match mem.read(rbp + 8) {
        Some(ret) => ret,
        None => {
            return Err(DebugError::MemoryAccessFailure);
        },
    };
    let caller = match mem.read(rbp) {
        Some(caller) => caller,
        None => {
            return Err(DebugError::MemoryAccessFailure);
        },
    };
    match walk_stack(table, mem, ret, caller, fuel - 1) {
        Ok(mut rest) => {
            rest.insert(0, frame);
            proof {
                let s = spec_walk(*table, mem.words@, rip, rbp, fuel as nat);
                assert(rest@ =~= s.unwrap());
            }
            Ok(rest)
        },
        Err(e) => Err(e),
    }
}

/// A frame whose contents the symbol table vouches for: some address
/// resolves to exactly this function name, file and line.
pub open spec fn frame_resolved(table: SymbolTable, fr: Frame) -> bool {
    exists|a: usize|
        {
            &&& (#[trigger] spec_function_for_addr(table.functions@, a)) matches Some(f)
                && f.name == fr.function
            &&& spec_line_for_addr(table.lines@, a) matches Some(l) && l.file == fr.file && l.line
                == fr.line
        }
}

/// Walking from a stop inside the call chain entry ← f ← g — the symbol
/// table resolves the stop inside g, the frame links lead from g's frame
/// to f's and then to the entry function's — produces exactly the three
/// ordered frames g, f, entry, with the entry function last and the walk
/// terminating there.
pub proof fn lemma_walk_call_chain_three(
    table: SymbolTable,
    mem: Seq<(usize, usize)>,
    rip_g: usize,
    rbp_g: usize,
    fuel: nat,
    rip_f: usize,
    rbp_f: usize,
    rip_e: usize,
)
    requires
        fuel >= 3,
        spec_function_for_addr(table.functions@, rip_g) matches Some(fg) && fg.name@
            != table.entry_function@,
        spec_line_for_addr(table.lines@, rip_g) is Some,
        rbp_g <= usize::MAX - 8,
        spec_mem_read(mem, (rbp_g + 8) as usize) == Some(rip_f),
        spec_mem_read(mem, rbp_g) == Some(rbp_f),
        spec_function_for_addr(table.functions@, rip_f) matches Some(ff) && ff.name@
            != table.entry_function@,
        spec_line_for_addr(table.lines@, rip_f) is Some,
        rbp_f <= usize::MAX - 8,
        spec_mem_read(mem, (rbp_f + 8) as usize) == Some(rip_e),
        spec_mem_read(mem, rbp_f) is Some,
        spec_function_for_addr(table.functions@, rip_e) matches Some(fe) && fe.name@
            == table.entry_function@,
        spec_line_for_addr(table.lines@, rip_e) is Some,
    ensures
        spec_walk(table, mem, rip_g, rbp_g, fuel) matches Ok(frames) && frames.len() == 3
            && frames[0].function == spec_function_for_addr(
            table.functions@,
            rip_g,
        ).unwrap().name && frames[1].function == spec_function_for_addr(
            table.functions@,
            rip_f,
        ).unwrap().name && frames[2].function == spec_function_for_addr(
            table.functions@,
            rip_e,
        ).unwrap().name && frames[2].function@ == table.entry_function@ && frames[0].function@
            != table.entry_function@ && frames[1].function@ != table.entry_function@,
{
    let fg = spec_function_for_addr(table.functions@, rip_g).unwrap();
    let lg = spec_line_for_addr(table.lines@, rip_g).unwrap();
    let ff = spec_function_for_addr(table.functions@, rip_f).unwrap();
    let lf = spec_line_for_addr(table.lines@, rip_f).unwrap();
    let fe = spec_function_for_addr(table.functions@, rip_e).unwrap();
    let le = spec_line_for_addr(table.lines@, rip_e).unwrap();
    let rbp_e = spec_mem_read(mem, rbp_f).unwrap();
    let frame_g = Frame { function: fg.name, file: lg.file, line: lg.line };
    let frame_f = Frame { function: ff.name, file: lf.file, line: lf.line };
    let frame_e = Frame { function: fe.name, file: le.file, line: le.line };
    assert(spec_walk(table, mem, rip_e, rbp_e, (fuel - 2) as nat) == Ok::<Seq<Frame>, DebugError>(
        seq![frame_e],
    ));
    assert(spec_walk(table, mem, rip_f, rbp_f, (fuel - 1) as nat) == Ok::<Seq<Frame>, DebugError>(
        seq![frame_f] + seq![frame_e],
    ));
    assert(spec_walk(table, mem, rip_g, rbp_g, fuel) == Ok::<Seq<Frame>, DebugError>(
        seq![frame_g] + (seq![frame_f] + seq![frame_e]),
    ));
    let frames = spec_walk(table, mem, rip_g, rbp_g, fuel).unwrap();
    assert(frames.len() == 3);
    assert(frames[0] == frame_g);
    assert(frames[1] == frame_f);
    assert(frames[2] == frame_e);
}

} // verus!
