//! A process record, and the parsing of file-descriptor table entries.
//!
//! The descriptor numbers of a process are published as directory
//! entries named by their decimal values; reading that directory is the
//! caller's concern, turning the entry names into numbers happens here.
//! One unparsable name makes the whole listing unavailable.

use vstd::prelude::*;
use vstd::utf8::encode_utf8;

use crate::parse::parse_radix;
use crate::parse::spec_radix_ok;
use crate::parse::spec_radix_value;

verus! {

/// One process: its id, its parent's id, and its command name.
pub struct Process {
    pub pid: usize,
    pub ppid: usize,
    pub command: String,
}

/// What one open descriptor points at, as plain values: the file's
/// name, its access mode, and the read/write cursor position.
pub struct OpenFile {
    pub name: String,
    pub access_mode: String,
    pub cursor: usize,
}

impl Process {
    pub fn new(pid: usize, ppid: usize, command: String) -> (r: Process)
        ensures
            r.pid == pid,
            r.ppid == ppid,
            r.command == command,
    {
        Process { pid, ppid, command }
    }

    /// Pair each descriptor number with the open-file record read for
    /// it, in order. The listing is unavailable as soon as one record is
    /// (commonly because the process exited while being inspected).
    pub fn list_open_files(&self, fds: &Vec<usize>, files: Vec<Option<OpenFile>>) -> (r: Option<
        Vec<(usize, OpenFile)>,
    >)
        requires
            files@.len() == fds@.len(),
        ensures
            match r {
                Some(v) => v@.len() == fds@.len() && forall|i: int|
                    0 <= i < v@.len() ==> (#[trigger] v@[i]).0 == fds@[i] && files@[i] == Some(
                        v@[i].1,
                    ),
                None => exists|i: int| 0 <= i < files@.len() && (#[trigger] files@[i]) is None,
            },
    {
        let ghost files0 = files@;
        let mut rest = files;
        let n = fds.len();
        let mut out: Vec<(usize, OpenFile)> = Vec::new();
        let mut i: usize = 0;
        while i < n
            invariant
                files0 == files@,
                n == fds@.len(),
                files0.len() == n,
                i <= n,
                rest@ == files0.skip(i as int),
                out@.len() == i,
                forall|j: int|
                    0 <= j < i ==> (#[trigger] out@[j]).0 == fds@[j] && files0[j] == Some(
                        out@[j].1,
                    ),
            decreases n - i,
        {
            proof {
                assert(rest@[0] == files0[i as int]);
            }
            let f = rest.remove(0);
            proof {
                assert(rest@ =~= files0.skip(i as int + 1));
            }
            match f {
                Some(file) => {
                    out.push((fds[i], file));
                },
                None => {
                    proof {
                        assert(files@[i as int] is None);
                    }
                    return None;
                },
            }
            i += 1;
        }
        Some(out)
    }
}

/// Parse the names of file-descriptor directory entries into descriptor
/// numbers, in order. Fails if any name is not a decimal number fitting
/// a machine word.
pub fn parse_fd_names(names: &Vec<String>) -> (r: Option<Vec<usize>>)
    ensures
        match r {
            Some(v) => v@.len() == names@.len() && forall|i: int|
                0 <= i < names@.len() ==> (#[trigger] spec_radix_ok(encode_utf8(names@[i]@), 10))
                    && v@[i] == spec_radix_value(encode_utf8(names@[i]@), 10),
            None => exists|i: int|
                0 <= i < names@.len() && !(#[trigger] spec_radix_ok(encode_utf8(names@[i]@), 10)),
        },
{
    let n = names.len();
    let mut out: Vec<usize> = Vec::new();
    let mut i: usize = 0;
    while i < n
        invariant
            n == names@.len(),
            i <= n,
            out@.len() == i,
            forall|j: int|
                0 <= j < i ==> (#[trigger] spec_radix_ok(encode_utf8(names@[j]@), 10)) && out@[j]
                    == spec_radix_value(encode_utf8(names@[j]@), 10),
        decreases n - i,
    {
        let bytes = names[i].as_str().as_bytes();
        proof {
            assert(bytes@.skip(0) =~= bytes@);
        }
        match parse_radix(bytes, 0, 10) {
            Some(v) => {
                out.push(v);
            },
            None => {
                return None;
            },
        }
        i += 1;
    }
    Some(out)
}

} // verus!
