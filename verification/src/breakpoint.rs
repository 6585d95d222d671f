//! Breakpoint records and the breakpoint registry.
//!
//! The registry maps requested addresses to their patch state: the original
//! instruction byte captured at install time and whether the trap byte is
//! currently written into the traced process. Addresses in the registry are
//! unique; requesting an address twice is a no-op (the duplicate request is
//! ignored, the original record kept).

use vstd::prelude::*;

verus! {

/// One requested breakpoint: its target address, the original instruction
/// byte captured when the trap byte was patched in, and whether that patch
/// is currently installed. `orig_byte` is meaningful only while
/// `installed` is true.
#[derive(Clone, Copy, PartialEq, Eq, Structural)]
pub struct Breakpoint {
    pub addr: usize,
    pub orig_byte: u8,
    pub installed: bool,
}

impl Breakpoint {
    /// Record a breakpoint at `addr` whose captured original byte is
    /// `orig_byte`; it starts uninstalled.
    pub fn new(addr: usize, orig_byte: u8) -> (r: Option<Breakpoint>)
        ensures
            r == Some(Breakpoint { addr, orig_byte, installed: false }),
    {
        Some(Breakpoint { addr, orig_byte, installed: false })
    }
}

/// The set of breakpoints of one session, with unique addresses.
pub struct BreakpointRegistry {
    pub bps: Vec<Breakpoint>,
}

impl BreakpointRegistry {
    /// Addresses are unique: distinct records hold distinct addresses.
    pub open spec fn wf(self) -> bool {
        forall|i: int, j: int|
            0 <= i < self.bps@.len() && 0 <= j < self.bps@.len() && i != j ==> self.bps@[i].addr
                != self.bps@[j].addr
    }

    pub open spec fn spec_len(self) -> nat {
        self.bps@.len()
    }

    pub open spec fn spec_at(self, i: int) -> Breakpoint {
        self.bps@[i]
    }

    pub open spec fn contains_addr(self, addr: usize) -> bool {
        exists|i: int| 0 <= i < self.bps@.len() && self.bps@[i].addr == addr
    }

    /// The index of the record for `addr`; meaningful only when
    /// `contains_addr(addr)` holds (under `wf` it is then unique).
    pub open spec fn index_of(self, addr: usize) -> int {
        choose|i: int| 0 <= i < self.bps@.len() && self.bps@[i].addr == addr
    }

    /// The record for `addr`; meaningful only when `contains_addr(addr)`.
    pub open spec fn entry_for(self, addr: usize) -> Breakpoint {
        self.bps@[self.index_of(addr)]
    }

    pub open spec fn spec_is_installed(self, addr: usize) -> bool {
        self.contains_addr(addr) && self.entry_for(addr).installed
    }

    /// Every registered breakpoint is currently patched into the process.
    pub open spec fn all_installed(self) -> bool {
        forall|i: int| 0 <= i < self.bps@.len() ==> (#[trigger] self.bps@[i]).installed
    }

    /// Under `wf`, any index holding `addr` is the index `entry_for` speaks
    /// of.
    pub proof fn lemma_index_unique(self, addr: usize, i: int)
        requires
            self.wf(),
            0 <= i < self.spec_len(),
            self.spec_at(i).addr == addr,
        ensures
            self.contains_addr(addr),
            self.index_of(addr) == i,
            self.entry_for(addr) == self.spec_at(i),
    {
        assert(self.contains_addr(addr));
        let j = self.index_of(addr);
        assert(0 <= j < self.spec_len() && self.spec_at(j).addr == addr);
    }

    pub fn new() -> (r: BreakpointRegistry)
        ensures
            r.wf(),
            r.spec_len() == 0,
            forall|a: usize| !r.contains_addr(a),
    {
        BreakpointRegistry { bps: Vec::new() }
    }

    pub fn len(&self) -> (r: usize)
        ensures
            r == self.spec_len(),
    {
        self.bps.len()
    }

    /// The record at position `i`, in registration order.
    pub fn get(&self, i: usize) -> (r: Breakpoint)
        requires
            i < self.spec_len(),
        ensures
            r == self.spec_at(i as int),
    {
        self.bps[i]
    }

    /// The position of the record for `addr`, if one is registered.
    pub fn find(&self, addr: usize) -> (r: Option<usize>)
        requires
            self.wf(),
        ensures
            match r {
                Some(i) => self.contains_addr(addr) && i < self.spec_len() && self.spec_at(
                    i as int,
                ).addr == addr && self.index_of(addr) == i && self.entry_for(addr) == self.spec_at(
                    i as int,
                ),
                None => !self.contains_addr(addr),
            },
    {
        let n = self.bps.len();
        let mut i: usize = 0;
        while i < n
            invariant
                n == self.spec_len(),
                i <= n,
                self.wf(),
                forall|j: int| 0 <= j < i ==> self.bps@[j].addr != addr,
            decreases n - i,
        {
            if self.bps[i].addr == addr {
                proof {
                    self.lemma_index_unique(addr, i as int);
                }
                return Some(i);
            }
            i += 1;
        }
        None
    }

    pub fn contains(&self, addr: usize) -> (r: bool)
        requires
            self.wf(),
        ensures
            r == self.contains_addr(addr),
    {
        self.find(addr).is_some()
    }

    pub fn is_installed(&self, addr: usize) -> (r: bool)
        requires
            self.wf(),
        ensures
            r == self.spec_is_installed(addr),
    {
        match self.find(addr) {
            Some(i) => self.bps[i].installed,
            None => false,
        }
    }

    /// The original byte behind an installed breakpoint at `addr`, if the
    /// address is registered and installed.
    pub fn installed_orig_byte(&self, addr: usize) -> (r: Option<u8>)
        requires
            self.wf(),
        ensures
            match r {
                Some(b) => self.spec_is_installed(addr) && b == self.entry_for(addr).orig_byte,
                None => !self.spec_is_installed(addr),
            },
    {
        match self.find(addr) {
            Some(i) => {
                let bp = self.bps[i];
                if bp.installed {
                    Some(bp.orig_byte)
                } else {
                    None
                }
            },
            None => None,
        }
    }

    /// Record a request for a breakpoint at `addr`. A duplicate request is
    /// ignored and the registry left unchanged; the result says whether a
    /// new record was added.
    pub fn request(&mut self, addr: usize) -> (added: bool)
        requires
            old(self).wf(),
        ensures
            final(self).wf(),
            final(self).contains_addr(addr),
            added == !old(self).contains_addr(addr),
            added ==> final(self).bps@ == old(self).bps@.push(
                Breakpoint { addr, orig_byte: 0, installed: false },
            ),
            !added ==> *final(self) == *old(self),
            forall|a: usize| final(self).contains_addr(a) <==> old(self).contains_addr(a) || a
                == addr,
    {
        if self.contains(addr) {
            proof {
                assert(self.contains_addr(addr));
            }
            return false;
        }
        let bp = Breakpoint { addr, orig_byte: 0, installed: false };
        self.bps.push(bp);
        proof {
            let n = self.bps@.len() - 1;
            assert(self.bps@[n].addr == addr);
            assert forall|a: usize| self.contains_addr(a) implies old(self).contains_addr(a)
                || a == addr by {
                let i = choose|i: int|
                    0 <= i < self.bps@.len() && self.bps@[i].addr == a;
                if i < n {
                    assert(old(self).bps@[i].addr == a);
                }
            }
            assert forall|a: usize| old(self).contains_addr(a) || a == addr implies self.contains_addr(
                a,
            ) by {
                if a == addr {
                    assert(self.bps@[n].addr == addr);
                } else {
                    let i = choose|i: int|
                        0 <= i < old(self).bps@.len() && old(self).bps@[i].addr == a;
                    assert(self.bps@[i].addr == a);
                }
            }
        }
        true
    }

    /// Record that the trap byte is now patched in at `addr` and that
    /// `orig` is the byte it replaced.
    pub fn note_installed(&mut self, addr: usize, orig: u8)
        requires
            old(self).wf(),
            old(self).contains_addr(addr),
        ensures
            final(self).wf(),
            final(self).spec_len() == old(self).spec_len(),
            forall|j: int|
                0 <= j < old(self).spec_len() ==> (final(self).spec_at(j).addr == old(
                    self,
                ).spec_at(j).addr && (old(self).spec_at(j).addr != addr ==> final(self).spec_at(j)
                    == old(self).spec_at(j))),
            final(self).contains_addr(addr),
            final(self).spec_is_installed(addr),
            final(self).entry_for(addr).orig_byte == orig,
            final(self).entry_for(addr).addr == addr,
            forall|a: usize| final(self).contains_addr(a) == old(self).contains_addr(a),
            forall|a: usize|
                a != addr && old(self).contains_addr(a) ==> final(self).entry_for(a) == old(
                    self,
                ).entry_for(a),
            forall|a: usize| a != addr ==> final(self).spec_is_installed(a) == old(
                self,
            ).spec_is_installed(a),
            old(self).all_installed() ==> final(self).all_installed(),
    {
        self.set_entry(addr, true, orig);
    }

    /// Record that the original byte is restored at `addr`: the breakpoint
    /// stays registered but is no longer installed.
    pub fn note_uninstalled(&mut self, addr: usize)
        requires
            old(self).wf(),
            old(self).contains_addr(addr),
        ensures
            final(self).wf(),
            final(self).spec_len() == old(self).spec_len(),
            forall|j: int|
                0 <= j < old(self).spec_len() ==> (final(self).spec_at(j).addr == old(
                    self,
                ).spec_at(j).addr && (old(self).spec_at(j).addr != addr ==> final(self).spec_at(j)
                    == old(self).spec_at(j))),
            final(self).contains_addr(addr),
            !final(self).spec_is_installed(addr),
            final(self).entry_for(addr).addr == addr,
            final(self).entry_for(addr).orig_byte == old(self).entry_for(addr).orig_byte,
            forall|a: usize| final(self).contains_addr(a) == old(self).contains_addr(a),
            forall|a: usize|
                a != addr && old(self).contains_addr(a) ==> final(self).entry_for(a) == old(
                    self,
                ).entry_for(a),
            forall|a: usize| a != addr ==> final(self).spec_is_installed(a) == old(
                self,
            ).spec_is_installed(a),
    {
        let i = match self.find(addr) {
            Some(i) => i,
            None => {
                return ;
            },
        };
        let orig = self.bps[i].orig_byte;
        self.set_entry(addr, false, orig);
    }

    /// Record that the trap byte is patched in again at `addr`; the
    /// captured original byte is kept.
    pub fn note_reinstalled(&mut self, addr: usize)
        requires
            old(self).wf(),
            old(self).contains_addr(addr),
        ensures
            final(self).wf(),
            final(self).spec_len() == old(self).spec_len(),
            forall|j: int|
                0 <= j < old(self).spec_len() ==> (final(self).spec_at(j).addr == old(
                    self,
                ).spec_at(j).addr && (old(self).spec_at(j).addr != addr ==> final(self).spec_at(j)
                    == old(self).spec_at(j))),
            final(self).contains_addr(addr),
            final(self).spec_is_installed(addr),
            final(self).entry_for(addr).addr == addr,
            final(self).entry_for(addr).orig_byte == old(self).entry_for(addr).orig_byte,
            forall|a: usize| final(self).contains_addr(a) == old(self).contains_addr(a),
            forall|a: usize|
                a != addr && old(self).contains_addr(a) ==> final(self).entry_for(a) == old(
                    self,
                ).entry_for(a),
            forall|a: usize| a != addr ==> final(self).spec_is_installed(a) == old(
                self,
            ).spec_is_installed(a),
    {
        let i = match self.find(addr) {
            Some(i) => i,
            None => {
                return ;
            },
        };
        let orig = self.bps[i].orig_byte;
        self.set_entry(addr, true, orig);
    }

    /// Record that no patch survives: the traced process is gone, so every
    /// breakpoint is uninstalled; addresses and captured bytes are kept.
    pub fn mark_all_uninstalled(&mut self)
        requires
            old(self).wf(),
        ensures
            final(self).wf(),
            final(self).spec_len() == old(self).spec_len(),
            forall|a: usize| final(self).contains_addr(a) == old(self).contains_addr(a),
            forall|i: int| 0 <= i < final(self).spec_len() ==> final(self).spec_at(i) == (
            Breakpoint {
                addr: old(self).spec_at(i).addr,
                orig_byte: old(self).spec_at(i).orig_byte,
                installed: false,
            }),
            forall|a: usize| !final(self).spec_is_installed(a),
    {
        let n = self.bps.len();
        let mut i: usize = 0;
        while i < n
            invariant
                n == self.spec_len(),
                self.spec_len() == old(self).spec_len(),
                i <= n,
                forall|j: int| 0 <= j < i ==> self.bps@[j] == (Breakpoint {
                    addr: old(self).bps@[j].addr,
                    orig_byte: old(self).bps@[j].orig_byte,
                    installed: false,
                }),
                forall|j: int| i <= j < n ==> self.bps@[j] == old(self).bps@[j],
            decreases n - i,
        {
            let bp = self.bps[i];
            self.bps.set(i, Breakpoint { addr: bp.addr, orig_byte: bp.orig_byte, installed: false });
            i += 1;
        }
        proof {
            assert(self.wf()) by {
                assert forall|p: int, q: int|
                    0 <= p < self.bps@.len() && 0 <= q < self.bps@.len() && p != q implies self.bps@[p].addr != self.bps@[q].addr by {
                    assert(self.bps@[p].addr == old(self).bps@[p].addr);
                    assert(self.bps@[q].addr == old(self).bps@[q].addr);
                }
            }
            assert forall|a: usize| self.contains_addr(a) == old(self).contains_addr(a) by {
                if self.contains_addr(a) {
                    let j = choose|j: int|
                        0 <= j < self.bps@.len() && self.bps@[j].addr == a;
                    assert(old(self).bps@[j].addr == a);
                }
                if old(self).contains_addr(a) {
                    let j = choose|j: int|
                        0 <= j < old(self).bps@.len() && old(self).bps@[j].addr == a;
                    assert(self.bps@[j].addr == a);
                }
            }
            assert forall|a: usize| !self.spec_is_installed(a) by {
                if self.contains_addr(a) {
                    let j = self.index_of(a);
                    assert(!self.bps@[j].installed);
                }
            }
        }
    }

    /// Overwrite the record for `addr` with the given patch state.
    fn set_entry(&mut self, addr: usize, installed: bool, orig: u8)
        requires
            old(self).wf(),
            old(self).contains_addr(addr),
        ensures
            final(self).wf(),
            final(self).spec_len() == old(self).spec_len(),
            forall|j: int|
                0 <= j < old(self).spec_len() ==> final(self).spec_at(j) == (if old(self).spec_at(
                    j,
                ).addr == addr {
                    Breakpoint { addr, orig_byte: orig, installed }
                } else {
                    old(self).spec_at(j)
                }),
            final(self).contains_addr(addr),
            final(self).entry_for(addr) == (Breakpoint { addr, orig_byte: orig, installed }),
            forall|a: usize| final(self).contains_addr(a) == old(self).contains_addr(a),
            forall|a: usize|
                a != addr && old(self).contains_addr(a) ==> final(self).entry_for(a) == old(
                    self,
                ).entry_for(a),
            forall|a: usize| a != addr ==> final(self).spec_is_installed(a) == old(
                self,
            ).spec_is_installed(a),
            installed && old(self).all_installed() ==> final(self).all_installed(),
    {
        let i = match self.find(addr) {
            Some(i) => i,
            None => {
                return ;
            },
        };
        self.bps.set(i, Breakpoint { addr, orig_byte: orig, installed });
        proof {
            assert forall|j: int| 0 <= j < old(self).spec_len() implies self.spec_at(j) == (if old(
                self,
            ).spec_at(j).addr == addr {
                Breakpoint { addr, orig_byte: orig, installed }
            } else {
                old(self).spec_at(j)
            }) by {
                if j != i {
                    assert(old(self).spec_at(j).addr != addr);
                }
            }
            self.lemma_index_unique(addr, i as int);
            assert forall|a: usize| old(self).contains_addr(a) implies self.contains_addr(a) by {
                let j = choose|j: int|
                    0 <= j < old(self).bps@.len() && old(self).bps@[j].addr == a;
                assert(self.bps@[j].addr == a);
            }
            assert forall|a: usize| self.contains_addr(a) implies old(self).contains_addr(a) by {
                let j = choose|j: int|
                    0 <= j < self.bps@.len() && self.bps@[j].addr == a;
                assert(old(self).bps@[j].addr == a);
            }
            assert forall|a: usize| a != addr && old(self).contains_addr(a) implies self.entry_for(
                a,
            ) == old(self).entry_for(a) by {
                let j = choose|j: int|
                    0 <= j < old(self).bps@.len() && old(self).bps@[j].addr == a;
                assert(self.bps@[j].addr == a);
                old(self).lemma_index_unique(a, j);
                self.lemma_index_unique(a, j);
            }
            assert forall|a: usize| a != addr implies self.spec_is_installed(a) == old(
                self,
            ).spec_is_installed(a) by {
                if old(self).contains_addr(a) {
                    assert(self.entry_for(a) == old(self).entry_for(a));
                }
            }
            if installed && old(self).all_installed() {
                assert forall|j: int| 0 <= j < self.bps@.len() implies (
                #[trigger] self.bps@[j]).installed by {
                    assert(old(self).spec_at(j).installed);
                    assert(self.bps@[j] == self.spec_at(j));
                }
            }
        }
    }
}

} // verus!
