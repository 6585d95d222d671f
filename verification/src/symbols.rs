//! The symbol table: the debug-metadata model the controller consults.
//!
//! The external debug-info reader is out of scope here; what the
//! controller needs from it is a read-only table answering four lookup
//! shapes: instruction address to source file and line, instruction
//! address to enclosing function, source line to address, and function
//! name to address. The table holds those answers as plain values, loaded
//! once at session start and never written afterwards; every lookup is a
//! first-match scan over the entries.

use vstd::prelude::*;

verus! {

/// One source line's address range: the half-open interval
/// `[addr_lo, addr_hi)` of instruction addresses belonging to line
/// `line` of `file`.
pub struct LineEntry {
    pub addr_lo: usize,
    pub addr_hi: usize,
    pub file: String,
    pub line: usize,
}

/// One function's address range: the half-open interval
/// `[addr_lo, addr_hi)` of instruction addresses inside `name`.
pub struct FunctionEntry {
    pub addr_lo: usize,
    pub addr_hi: usize,
    pub name: String,
}

/// The loaded debug metadata of one target executable, plus the name of
/// the designated entry function at which a stack walk terminates.
pub struct SymbolTable {
    pub lines: Vec<LineEntry>,
    pub functions: Vec<FunctionEntry>,
    pub entry_function: String,
}

pub open spec fn line_covers(e: LineEntry, addr: usize) -> bool {
    e.addr_lo <= addr < e.addr_hi
}

pub open spec fn function_covers(e: FunctionEntry, addr: usize) -> bool {
    e.addr_lo <= addr < e.addr_hi
}

/// The first line entry covering `addr`, if any.
pub open spec fn spec_line_for_addr(entries: Seq<LineEntry>, addr: usize) -> Option<LineEntry>
    decreases entries.len(),
{
    if entries.len() == 0 {
        None
    } else if line_covers(entries[0], addr) {
        Some(entries[0])
    } else {
        spec_line_for_addr(entries.drop_first(), addr)
    }
}

/// The first function entry covering `addr`, if any.
pub open spec fn spec_function_for_addr(entries: Seq<FunctionEntry>, addr: usize) -> Option<
    FunctionEntry,
>
    decreases entries.len(),
{
    if entries.len() == 0 {
        None
    } else if function_covers(entries[0], addr) {
        Some(entries[0])
    } else {
        spec_function_for_addr(entries.drop_first(), addr)
    }
}

/// The first line entry for source line `line`, if any.
pub open spec fn spec_addr_for_line(entries: Seq<LineEntry>, line: usize) -> Option<LineEntry>
    decreases entries.len(),
{
    if entries.len() == 0 {
        None
    } else if entries[0].line == line {
        Some(entries[0])
    } else {
        spec_addr_for_line(entries.drop_first(), line)
    }
}

/// The first function entry named `name`, if any.
pub open spec fn spec_addr_for_function(entries: Seq<FunctionEntry>, name: Seq<char>) -> Option<
    FunctionEntry,
>
    decreases entries.len(),
{
    if entries.len() == 0 {
        None
    } else if entries[0].name@ == name {
        Some(entries[0])
    } else {
        spec_addr_for_function(entries.drop_first(), name)
    }
}

proof fn lemma_line_for_addr_step(entries: Seq<LineEntry>, addr: usize, i: int)
    requires
        0 <= i < entries.len(),
        !line_covers(entries[i], addr),
    ensures
        spec_line_for_addr(entries.skip(i), addr) == spec_line_for_addr(entries.skip(i + 1), addr),
{
    assert(entries.skip(i)[0] == entries[i]);
    assert(entries.skip(i).drop_first() =~= entries.skip(i + 1));
}

proof fn lemma_function_for_addr_step(entries: Seq<FunctionEntry>, addr: usize, i: int)
    requires
        0 <= i < entries.len(),
        !function_covers(entries[i], addr),
    ensures
        spec_function_for_addr(entries.skip(i), addr) == spec_function_for_addr(
            entries.skip(i + 1),
            addr,
        ),
{
    assert(entries.skip(i)[0] == entries[i]);
    assert(entries.skip(i).drop_first() =~= entries.skip(i + 1));
}

proof fn lemma_addr_for_line_step(entries: Seq<LineEntry>, line: usize, i: int)
    requires
        0 <= i < entries.len(),
        entries[i].line != line,
    ensures
        spec_addr_for_line(entries.skip(i), line) == spec_addr_for_line(entries.skip(i + 1), line),
{
    assert(entries.skip(i)[0] == entries[i]);
    assert(entries.skip(i).drop_first() =~= entries.skip(i + 1));
}

proof fn lemma_addr_for_function_step(entries: Seq<FunctionEntry>, name: Seq<char>, i: int)
    requires
        0 <= i < entries.len(),
        entries[i].name@ != name,
    ensures
        spec_addr_for_function(entries.skip(i), name) == spec_addr_for_function(
            entries.skip(i + 1),
            name,
        ),
{
    assert(entries.skip(i)[0] == entries[i]);
    assert(entries.skip(i).drop_first() =~= entries.skip(i + 1));
}

impl SymbolTable {
    /// An empty table: no metadata could be modelled, every lookup fails.
    pub fn new(entry_function: String) -> (r: SymbolTable)
        ensures
            r.lines@.len() == 0,
            r.functions@.len() == 0,
            r.entry_function == entry_function,
    {
        SymbolTable { lines: Vec::new(), functions: Vec::new(), entry_function }
    }

    /// Map an instruction address to the source file and line it belongs
    /// to, if the metadata covers it.
    pub fn address_to_line(&self, addr: usize) -> (r: Option<(String, usize)>)
        ensures
            match spec_line_for_addr(self.lines@, addr) {
                Some(e) => r == Some((e.file, e.line)),
                None => r is None,
            },
    {
        let n = self.lines.len();
        let mut i: usize = 0;
        proof {
            assert(self.lines@.skip(0) =~= self.lines@);
        }
        while i < n
            invariant
                n == self.lines@.len(),
                i <= n,
                spec_line_for_addr(self.lines@, addr) == spec_line_for_addr(
                    self.lines@.skip(i as int),
                    addr,
                ),
            decreases n - i,
        {
            let e = &self.lines[i];
            if e.addr_lo <= addr && addr < e.addr_hi {
                proof {
                    assert(self.lines@.skip(i as int)[0] == self.lines@[i as int]);
                }
                return Some((e.file.clone(), e.line));
            }
            proof {
                lemma_line_for_addr_step(self.lines@, addr, i as int);
            }
            i += 1;
        }
        proof {
            assert(self.lines@.skip(n as int) =~= Seq::<LineEntry>::empty());
        }
        None
    }

    /// Map an instruction address to the name of the enclosing function,
    /// if the metadata covers it.
    pub fn address_to_function(&self, addr: usize) -> (r: Option<String>)
        ensures
            match spec_function_for_addr(self.functions@, addr) {
                Some(e) => r == Some(e.name),
                None => r is None,
            },
    {
        let n = self.functions.len();
        let mut i: usize = 0;
        proof {
            assert(self.functions@.skip(0) =~= self.functions@);
        }
        while i < n
            invariant
                n == self.functions@.len(),
                i <= n,
                spec_function_for_addr(self.functions@, addr) == spec_function_for_addr(
                    self.functions@.skip(i as int),
                    addr,
                ),
            decreases n - i,
        {
            let e = &self.functions[i];
            if e.addr_lo <= addr && addr < e.addr_hi {
                proof {
                    assert(self.functions@.skip(i as int)[0] == self.functions@[i as int]);
                }
                return Some(e.name.clone());
            }
            proof {
                lemma_function_for_addr_step(self.functions@, addr, i as int);
            }
            i += 1;
        }
        proof {
            assert(self.functions@.skip(n as int) =~= Seq::<FunctionEntry>::empty());
        }
        None
    }

    /// Map a source line number to the first instruction address of that
    /// line, if the metadata knows the line.
    pub fn line_to_address(&self, line: usize) -> (r: Option<usize>)
        ensures
            match spec_addr_for_line(self.lines@, line) {
                Some(e) => r == Some(e.addr_lo),
                None => r is None,
            },
    {
        let n = self.lines.len();
        let mut i: usize = 0;
        proof {
            assert(self.lines@.skip(0) =~= self.lines@);
        }
        while i < n
            invariant
                n == self.lines@.len(),
                i <= n,
                spec_addr_for_line(self.lines@, line) == spec_addr_for_line(
                    self.lines@.skip(i as int),
                    line,
                ),
            decreases n - i,
        {
            let e = &self.lines[i];
            if e.line == line {
                proof {
                    assert(self.lines@.skip(i as int)[0] == self.lines@[i as int]);
                }
                return Some(e.addr_lo);
            }
            proof {
                lemma_addr_for_line_step(self.lines@, line, i as int);
            }
            i += 1;
        }
        proof {
            assert(self.lines@.skip(n as int) =~= Seq::<LineEntry>::empty());
        }
        None
    }

    /// Map a function name to that function's first instruction address,
    /// if the metadata knows the name.
    pub fn function_to_address(&self, name: &String) -> (r: Option<usize>)
        ensures
            match spec_addr_for_function(self.functions@, name@) {
                Some(e) => r == Some(e.addr_lo),
                None => r is None,
            },
    {
        let n = self.functions.len();
        let mut i: usize = 0;
        proof {
            assert(self.functions@.skip(0) =~= self.functions@);
        }
        while i < n
            invariant
                n == self.functions@.len(),
                i <= n,
                spec_addr_for_function(self.functions@, name@) == spec_addr_for_function(
                    self.functions@.skip(i as int),
                    name@,
                ),
            decreases n - i,
        {
            let e = &self.functions[i];
            if e.name == *name {
                proof {
                    assert(self.functions@.skip(i as int)[0] == self.functions@[i as int]);
                }
                return Some(e.addr_lo);
            }
            proof {
                lemma_addr_for_function_step(self.functions@, name@, i as int);
            }
            i += 1;
        }
        proof {
            assert(self.functions@.skip(n as int) =~= Seq::<FunctionEntry>::empty());
        }
        None
    }
}

} // verus!
