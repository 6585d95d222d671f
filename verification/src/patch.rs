//! Word-level byte patching.
//!
//! A software breakpoint replaces one byte of the traced program's
//! instruction stream with a trap opcode. The tracing interface reads and
//! writes whole machine words, so installing or removing a breakpoint means
//! editing a single byte inside a word while leaving the other bytes
//! untouched. The functions here do that arithmetic; the round-trip lemma
//! states that install followed by uninstall restores the word exactly.

use vstd::prelude::*;

verus! {

/// Number of bytes in a machine word of the traced process.
pub const WORD_SIZE: usize = 8;

/// The trap opcode written over the original byte of an installed
/// breakpoint.
pub const BRK_BYTE: u8 = 0xcc;

/// The word-aligned address of the word containing `addr`.
pub open spec fn spec_align_addr_to_word(addr: usize) -> usize {
    (addr - addr % (WORD_SIZE as usize)) as usize
}

/// The byte of `word` at byte offset `off` (little-endian order, as the
/// tracing interface presents words of the child's memory).
pub open spec fn spec_byte_at(word: u64, off: usize) -> u8 {
    ((word >> (8 * off as u64)) & 0xff) as u8
}

/// `word` with its byte at offset `off` replaced by `val`, all other
/// bytes unchanged.
pub open spec fn spec_set_byte(word: u64, off: usize, val: u8) -> u64 {
    (word & !(0xffu64 << (8 * off as u64))) | ((val as u64) << (8 * off as u64))
}

/// Align an address down to the machine word holding it, by masking the
/// low address bits.
pub fn align_addr_to_word(addr: usize) -> (r: usize)
    ensures
        r == spec_align_addr_to_word(addr),
        r % (WORD_SIZE as usize) == 0,
        r <= addr < r + WORD_SIZE,
{
    proof {
        assert(addr & !7usize == addr - addr % 8) by (bit_vector);
    }
    addr & !(WORD_SIZE - 1)
}

/// The byte offset of `addr` within its machine word.
pub fn word_offset(addr: usize) -> (r: usize)
    ensures
        r == addr % (WORD_SIZE as usize),
        r < WORD_SIZE,
        addr == spec_align_addr_to_word(addr) + r,
{
    addr % WORD_SIZE
}

/// Extract the byte of `word` at byte offset `off`.
pub fn byte_at(word: u64, off: usize) -> (r: u8)
    requires
        off < WORD_SIZE,
    ensures
        r == spec_byte_at(word, off),
{
    ((word >> (8 * off as u64)) & 0xff) as u8
}

/// Replace the byte of `word` at byte offset `off` with `val`, by masking
/// out the old byte rather than overwriting neighbouring bytes.
pub fn set_byte(word: u64, off: usize, val: u8) -> (r: u64)
    requires
        off < WORD_SIZE,
    ensures
        r == spec_set_byte(word, off, val),
        spec_byte_at(r, off) == val,
        forall|o: usize| o < WORD_SIZE && o != off ==> spec_byte_at(r, o) == spec_byte_at(word, o),
{
    proof {
        lemma_set_byte_sets(word, off, val);
        lemma_set_byte_preserves_others(word, off, val);
    }
    (word & !(0xffu64 << (8 * off as u64))) | ((val as u64) << (8 * off as u64))
}

/// Setting a byte really stores that byte.
pub proof fn lemma_set_byte_sets(word: u64, off: usize, val: u8)
    requires
        off < WORD_SIZE,
    ensures
        spec_byte_at(spec_set_byte(word, off, val), off) == val,
{
    let o = off as u64;
    assert(o < 8 ==> ((((word & !(0xffu64 << (8 * o))) | ((val as u64) << (8 * o))) >> (8 * o))
        & 0xff) as u8 == val) by (bit_vector);
}

/// Setting a byte leaves every other byte of the word unchanged.
pub proof fn lemma_set_byte_preserves_others(word: u64, off: usize, val: u8)
    requires
        off < WORD_SIZE,
    ensures
        forall|o: usize|
            o < WORD_SIZE && o != off ==> spec_byte_at(spec_set_byte(word, off, val), o)
                == spec_byte_at(word, o),
{
    assert forall|o: usize| o < WORD_SIZE && o != off implies spec_byte_at(
        spec_set_byte(word, off, val),
        o,
    ) == spec_byte_at(word, o) by {
        let a = off as u64;
        let b = o as u64;
        assert(a < 8 && b < 8 && a != b ==> ((((word & !(0xffu64 << (8 * a))) | ((val as u64) << (8
            * a))) >> (8 * b)) & 0xff) as u8 == ((word >> (8 * b)) & 0xff) as u8) by (bit_vector);
    }
}

/// Round trip: installing a byte and then restoring the byte that was
/// extracted beforehand yields the original word, bit for bit. This is the
/// install/uninstall inverse property of the breakpoint patch.
pub proof fn lemma_patch_round_trip(word: u64, off: usize, val: u8)
    requires
        off < WORD_SIZE,
    ensures
        spec_set_byte(spec_set_byte(word, off, val), off, spec_byte_at(word, off)) == word,
{
    let o = off as u64;
    let orig = spec_byte_at(word, off);
    assert(o < 8 ==> ((((word & !(0xffu64 << (8 * o))) | ((val as u64) << (8 * o))) & !(0xffu64
        << (8 * o))) | (((((word >> (8 * o)) & 0xff) as u8) as u64) << (8 * o))) == word)
        by (bit_vector);
}

} // verus!
