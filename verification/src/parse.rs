//! Break-target parsing.
//!
//! A break target is one token: a leading `*` marks a raw address in
//! hexadecimal (with or without a `0x` or `0X` prefix); a purely numeric
//! token that fits a machine word is a source line number; any other
//! token is a function name. A malformed raw address is an error; an
//! over-large or non-numeric plain token falls back to being a name.

use vstd::prelude::*;
use vstd::string::StringSliceAdditionalSpecFns;

use crate::controller::DebugError;

verus! {

/// A parsed break target.
#[derive(Debug)]
pub enum BreakTarget {
    /// An explicit instruction address.
    RawAddress(usize),
    /// A source line number, to be resolved against the symbol table.
    Line(usize),
    /// A function name, to be resolved against the symbol table.
    Function(String),
}

/// The numeric value of one byte read as a digit in the given base
/// (10 or 16; letter digits in either case), if it is one.
pub open spec fn spec_digit_val(b: u8, base: int) -> Option<int> {
    if 0x30 <= b <= 0x39 && b - 0x30 < base {
        Some((b - 0x30) as int)
    } else if base == 16 && 0x61 <= b <= 0x66 {
        Some((b - 0x61 + 10) as int)
    } else if base == 16 && 0x41 <= b <= 0x46 {
        Some((b - 0x41 + 10) as int)
    } else {
        None
    }
}

pub open spec fn spec_all_digits(s: Seq<u8>, base: int) -> bool {
    forall|i: int| 0 <= i < s.len() ==> (#[trigger] spec_digit_val(s[i], base)) is Some
}

/// The place value reading of `s` in the given base; bytes that are not
/// digits count as zero (the reading is meaningful only when
/// `spec_all_digits` holds).
pub open spec fn spec_radix_value(s: Seq<u8>, base: int) -> int
    decreases s.len(),
{
    if s.len() == 0 {
        0
    } else {
        spec_radix_value(s.drop_last(), base) * base + (match spec_digit_val(s.last(), base) {
            Some(v) => v,
            None => 0,
        })
    }
}

/// `s` is a well-formed numeral in the given base whose value fits a
/// machine word.
pub open spec fn spec_radix_ok(s: Seq<u8>, base: int) -> bool {
    s.len() > 0 && spec_all_digits(s, base) && spec_radix_value(s, base) <= usize::MAX
}

pub proof fn lemma_radix_value_nonneg(s: Seq<u8>, base: int)
    requires
        base >= 1,
    ensures
        spec_radix_value(s, base) >= 0,
    decreases s.len(),
{
    if s.len() > 0 {
        lemma_radix_value_nonneg(s.drop_last(), base);
        let d = match spec_digit_val(s.last(), base) {
            Some(v) => v,
            None => 0int,
        };
        assert(d >= 0);
        assert(spec_radix_value(s.drop_last(), base) * base >= 0) by (nonlinear_arith)
            requires
                spec_radix_value(s.drop_last(), base) >= 0,
                base >= 1,
        ;
    }
}

/// The reading of a prefix never exceeds the reading of the whole
/// numeral.
pub proof fn lemma_radix_value_monotone(s: Seq<u8>, base: int, i: int)
    requires
        base >= 1,
        0 <= i <= s.len(),
    ensures
        spec_radix_value(s.take(i), base) <= spec_radix_value(s, base),
    decreases s.len() - i,
{
    if i == s.len() {
        assert(s.take(i) =~= s);
    } else {
        lemma_radix_value_monotone(s, base, i + 1);
        assert(s.take(i + 1).drop_last() =~= s.take(i));
        assert(s.take(i + 1).last() == s[i]);
        let v = spec_radix_value(s.take(i), base);
        let d = match spec_digit_val(s[i], base) {
            Some(x) => x,
            None => 0int,
        };
        lemma_radix_value_nonneg(s.take(i), base);
        assert(spec_radix_value(s.take(i + 1), base) == v * base + d);
        assert(v * base >= v) by (nonlinear_arith)
            requires
                v >= 0,
                base >= 1,
        ;
    }
}

/// Read one byte as a digit in the given base.
fn digit_val(b: u8, base: usize) -> (r: Option<u8>)
    requires
        base == 10 || base == 16,
    ensures
        match spec_digit_val(b, base as int) {
            Some(v) => r == Some(v as u8),
            None => r is None,
        },
{
    if 0x30 <= b && b <= 0x39 {
        // decimal digit
        Some(b - 0x30)
    } else if base == 16 && 0x61 <= b && b <= 0x66 {
        // lower-case hexadecimal letter digit
        Some(b - 0x61 + 10)
    } else if base == 16 && 0x41 <= b && b <= 0x46 {
        // upper-case hexadecimal letter digit
        Some(b - 0x41 + 10)
    } else {
        None
    }
}

/// Parse the bytes of `bytes` from `start` on as an unsigned numeral in
/// the given base. Succeeds exactly on a non-empty all-digit tail whose
/// value fits a machine word, and then returns that value.
pub fn parse_radix(bytes: &[u8], start: usize, base: usize) -> (r: Option<usize>)
    requires
        base == 10 || base == 16,
        start <= bytes@.len(),
    ensures
        match r {
            Some(v) => spec_radix_ok(bytes@.skip(start as int), base as int) && v
                == spec_radix_value(bytes@.skip(start as int), base as int),
            None => !spec_radix_ok(bytes@.skip(start as int), base as int),
        },
{
    let ghost sub = bytes@.skip(start as int);
    let n = bytes.len();
    if start == n {
        return None;
    }
    let mut acc: u128 = 0;
    let mut i: usize = start;
    proof {
        assert(sub.take(0) =~= Seq::<u8>::empty());
    }
    while i < n
        invariant
            base == 10 || base == 16,
            start <= i <= n,
            n == bytes@.len(),
            sub == bytes@.skip(start as int),
            sub.len() == n - start,
            forall|j: int| 0 <= j < i - start ==> (#[trigger] spec_digit_val(sub[j], base as int))
                is Some,
            acc == spec_radix_value(sub.take(i - start), base as int),
            acc <= usize::MAX as u128,
        decreases n - i,
    {
        let b = bytes[i];
        proof {
            assert(sub[i - start] == bytes@[i as int]);
        }
        let d = match digit_val(b, base) {
            Some(d) => d,
            None => {
                proof {
                    assert(!spec_all_digits(sub, base as int)) by {
                        assert(spec_digit_val(sub[i - start], base as int) is None);
                    }
                }
                return None;
            },
        };
        proof {
            assert(d <= 15);
            assert(acc <= 0xffff_ffff_ffff_ffffu128);
            assert(acc * (base as u128) + (d as u128) <= 0xffff_ffff_ffff_ffffu128 * 16 + 15)
                by (nonlinear_arith)
                requires
                    acc <= 0xffff_ffff_ffff_ffffu128,
                    base as u128 <= 16,
                    d <= 15,
            ;
        }
        let next: u128 = acc * (base as u128) + (d as u128);
        proof {
            let k = i - start;
            assert(sub.take(k + 1).drop_last() =~= sub.take(k));
            assert(sub.take(k + 1).last() == sub[k]);
            assert(next == spec_radix_value(sub.take(k + 1), base as int));
        }
        if next > (usize::MAX as u128) {
            proof {
                lemma_radix_value_monotone(sub, base as int, i - start + 1);
            }
            return None;
        }
        acc = next;
        i += 1;
    }
    proof {
        assert(sub.take(n - start) =~= sub);
    }
    Some(acc as usize)
}

/// Where the hexadecimal digits of a raw-address token begin, after the
/// `*` and an optional `0x` or `0X` prefix.
pub open spec fn spec_hex_body_start(s: Seq<u8>) -> int {
    if s.len() >= 3 && s[1] == 0x30 && (s[2] == 0x78 || s[2] == 0x58) {
        3
    } else {
        1
    }
}

/// `s` starts with the raw-address marker `*`.
pub open spec fn spec_is_raw_marker(s: Seq<u8>) -> bool {
    s.len() >= 1 && s[0] == 0x2a
}

/// Parse one break-target token. A leading `*` demands a hexadecimal
/// address (optionally prefixed `0x` or `0X`) and a malformed one is a
/// resolution error; otherwise a numeral that fits a machine word is a
/// source line number, and anything else is a function name, taken
/// verbatim.
pub fn parse_break_target(token: &str) -> (r: Result<BreakTarget, DebugError>)
    ensures
        match r {
            Ok(BreakTarget::RawAddress(v)) => spec_is_raw_marker(token.spec_bytes())
                && spec_radix_ok(
                token.spec_bytes().skip(spec_hex_body_start(token.spec_bytes())),
                16,
            ) && v == spec_radix_value(
                token.spec_bytes().skip(spec_hex_body_start(token.spec_bytes())),
                16,
            ),
            Ok(BreakTarget::Line(v)) => !spec_is_raw_marker(token.spec_bytes()) && spec_radix_ok(
                token.spec_bytes(),
                10,
            ) && v == spec_radix_value(token.spec_bytes(), 10),
            Ok(BreakTarget::Function(name)) => !spec_is_raw_marker(token.spec_bytes())
                && !spec_radix_ok(token.spec_bytes(), 10) && name@ == token@,
            Err(e) => e == DebugError::ResolutionFailure && spec_is_raw_marker(token.spec_bytes())
                && !spec_radix_ok(
                token.spec_bytes().skip(spec_hex_body_start(token.spec_bytes())),
                16,
            ),
        },
{
    let bytes = token.as_bytes();
    if bytes.len() >= 1 && bytes[0] == 0x2a {
        // raw address mode
        let hex_start: usize = if bytes.len() >= 3 && bytes[1] == 0x30 && (bytes[2] == 0x78
            || bytes[2] == 0x58) {
            3
        } else {
            1
        };
        match parse_radix(bytes, hex_start, 16) {
            Some(v) => Ok(BreakTarget::RawAddress(v)),
            None => Err(DebugError::ResolutionFailure),
        }
    } else {
        match parse_radix(bytes, 0, 10) {
            Some(v) => {
                proof {
                    assert(bytes@.skip(0) =~= bytes@);
                }
                Ok(BreakTarget::Line(v))
            },
            None => {
                proof {
                    assert(bytes@.skip(0) =~= bytes@);
                }
                Ok(BreakTarget::Function(token.to_owned()))
            },
        }
    }
}

} // verus!
