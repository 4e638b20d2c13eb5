//! Fixed-width binary identifiers: account addresses and transaction hashes.
//!
//! An address is 20 bytes and is written in configuration as `0x` followed by
//! 40 hexadecimal digits; comparison is canonical (case-insensitive), which
//! the parser achieves by reducing the text to its numeric value.

use vstd::prelude::*;

verus! {

/// A 20-byte account address, held as its numeric value split in two halves:
/// `hi` is the value of the first 20 hex digits, `lo` of the last 20.
#[derive(PartialEq, Eq, Structural, Clone, Copy, Debug, Hash)]
pub struct Address {
    pub hi: u128,
    pub lo: u128,
}

/// A 32-byte transaction identifier, split likewise in two 16-byte halves.
#[derive(PartialEq, Eq, Structural, Clone, Copy, Debug, Hash)]
pub struct TxHash {
    pub hi: u128,
    pub lo: u128,
}

/// Does the byte denote a hexadecimal digit (either case)?
pub open spec fn is_hex_digit(b: u8) -> bool {
    (48 <= b && b <= 57) || (97 <= b && b <= 102) || (65 <= b && b <= 70)
}

/// Numeric value of a hexadecimal digit byte; zero on other bytes.
pub open spec fn hex_digit_val(b: u8) -> nat {
    if 48 <= b && b <= 57 {
        (b - 48) as nat
    } else if 97 <= b && b <= 102 {
        (b - 87) as nat
    } else if 65 <= b && b <= 70 {
        (b - 55) as nat
    } else {
        0
    }
}

/// All bytes of the sequence are hexadecimal digits.
pub open spec fn hex_seq_ok(s: Seq<u8>) -> bool {
    forall|i: int| 0 <= i < s.len() ==> is_hex_digit(s[i])
}

/// Value of a big-endian sequence of hexadecimal digit bytes.
pub open spec fn hex_val(s: Seq<u8>) -> nat
    decreases s.len(),
{
    if s.len() == 0 {
        0
    } else {
        hex_val(s.drop_last()) * 16 + hex_digit_val(s.last())
    }
}

/// 16 to the n-th power.
pub open spec fn pow16(n: nat) -> nat
    decreases n,
{
    if n == 0 {
        1
    } else {
        16 * pow16((n - 1) as nat)
    }
}

proof fn lemma_hex_val_bound(s: Seq<u8>)
    ensures
        hex_val(s) < pow16(s.len()),
    decreases s.len(),
{
    if s.len() == 0 {
    } else {
        lemma_hex_val_bound(s.drop_last());
        assert(hex_digit_val(s.last()) < 16);
        assert(hex_val(s.drop_last()) * 16 <= (pow16((s.len() - 1) as nat) - 1) * 16)
            by (nonlinear_arith)
            requires
                hex_val(s.drop_last()) <= pow16((s.len() - 1) as nat) - 1,
        ;
    }
}

/// Numeric value of a hexadecimal digit byte, or `None` on any other byte.
fn hex_digit_of(b: u8) -> (r: Option<u8>)
    ensures
        (r is Some) == is_hex_digit(b),
        match r {
            Some(v) => v as nat == hex_digit_val(b) && v < 16,
            None => true,
        },
{
    if 48 <= b && b <= 57 {
        Some(b - 48)
    } else if 97 <= b && b <= 102 {
        Some(b - 87)
    } else if 65 <= b && b <= 70 {
        Some(b - 55)
    } else {
        None
    }
}

/// Parses the 20 hexadecimal digits of `s` starting at `start` as one
/// big-endian value; `None` exactly when a byte there is no hex digit.
fn parse_hex_half(s: &[u8], start: usize) -> (r: Option<u128>)
    requires
        start + 20 <= s@.len(),
    ensures
        (r is Some) == hex_seq_ok(s@.subrange(start as int, start as int + 20)),
        match r {
            Some(v) => v as nat == hex_val(s@.subrange(start as int, start as int + 20)),
            None => true,
        },
{
    let n = s.len();
    let mut acc: u128 = 0;
    let mut i: usize = 0;
    while i < 20
        invariant
            start + 20 <= s@.len(),
            s@.len() == n,
            i <= 20,
            hex_seq_ok(s@.subrange(start as int, start as int + i as int)),
            acc as nat == hex_val(s@.subrange(start as int, start as int + i as int)),
            acc < pow16(i as nat),
        decreases 20 - i,
    {
        let b = s[start + i];
        match hex_digit_of(b) {
            None => {
                proof {
                    let full = s@.subrange(start as int, start as int + 20);
                    assert(full[i as int] == b);
                    assert(!hex_seq_ok(full));
                }
                return None;
            },
            Some(d) => {
                proof {
                    let pre = s@.subrange(start as int, start as int + i as int);
                    let cur = s@.subrange(start as int, start as int + i as int + 1);
                    assert(cur.drop_last() =~= pre);
                    assert(cur.last() == b);
                    assert(pow16((i + 1) as nat) == 16 * pow16(i as nat));
                    assert(pow16(20) == 0x100000000000000000000) by {
                        reveal_with_fuel(pow16, 21);
                    }
                    lemma_pow16_le(i as nat + 1, 20);
                    assert(acc * 16 <= (pow16(i as nat) - 1) * 16) by (nonlinear_arith)
                        requires
                            acc <= pow16(i as nat) - 1,
                    ;
                }
                acc = acc * 16 + (d as u128);
                i = i + 1;
            },
        }
    }
    Some(acc)
}

proof fn lemma_pow16_le(a: nat, b: nat)
    requires
        a <= b,
    ensures
        pow16(a) <= pow16(b),
    decreases b,
{
    if a < b {
        lemma_pow16_le(a, (b - 1) as nat);
        assert(pow16(b) == 16 * pow16((b - 1) as nat));
    }
}

/// Is `s` a well-formed address literal: `0x` and then 40 hex digits?
pub open spec fn addr_hex_ok(s: Seq<u8>) -> bool {
    &&& s.len() == 42
    &&& s[0] == 48u8
    &&& s[1] == 120u8
    &&& hex_seq_ok(s.subrange(2, 42))
}

/// The address a well-formed literal denotes.
pub open spec fn addr_of_hex(s: Seq<u8>) -> Address
    recommends
        addr_hex_ok(s),
{
    Address {
        hi: hex_val(s.subrange(2, 22)) as u128,
        lo: hex_val(s.subrange(22, 42)) as u128,
    }
}

impl Address {
    /// Parses an address literal (`0x` and 40 hex digits, either case) into
    /// its canonical numeric form; `None` exactly on malformed text.
    pub fn from_hex(s: &[u8]) -> (r: Option<Address>)
        ensures
            (r is Some) == addr_hex_ok(s@),
            match r {
                Some(a) => a == addr_of_hex(s@),
                None => true,
            },
    {
        if s.len() != 42 {
            return None;
        }
        if s[0] != 48 || s[1] != 120 {
            return None;
        }
        let hi = parse_hex_half(s, 2);
        let lo = parse_hex_half(s, 22);
        proof {
            let full = s@.subrange(2, 42);
            let a = s@.subrange(2, 22);
            let b = s@.subrange(22, 42);
            assert(a =~= full.subrange(0, 20));
            assert(b =~= full.subrange(20, 40));
            assert forall|i: int| 0 <= i < 20 implies a[i] == full[i] by {}
            assert forall|i: int| 0 <= i < 20 implies b[i] == full[i + 20] by {}
            assert(hex_seq_ok(full) ==> hex_seq_ok(a) && hex_seq_ok(b));
            assert(hex_seq_ok(a) && hex_seq_ok(b) ==> hex_seq_ok(full)) by {
                if hex_seq_ok(a) && hex_seq_ok(b) {
                    assert forall|i: int| 0 <= i < full.len() implies is_hex_digit(full[i]) by {
                        if i < 20 {
                            assert(full[i] == a[i]);
                        } else {
                            assert(full[i] == b[i - 20]);
                        }
                    }
                }
            }
        }
        match (hi, lo) {
            (Some(h), Some(l)) => Some(Address { hi: h, lo: l }),
            _ => None,
        }
    }
}

} // verus!
