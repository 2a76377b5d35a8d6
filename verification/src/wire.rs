//! Primitives of the compact binary wire format.
//!
//! Integers travel as base-128 varints, least significant group first, with
//! the high bit of a byte marking continuation; a 64-bit value takes at most
//! ten bytes and the tenth byte may only be 0 or 1. Strings travel as a
//! varint byte length followed by their UTF-8 bytes; 32-byte identifiers
//! travel raw. Decoding tolerates trailing bytes after a complete value.

use vstd::prelude::*;
use vstd::utf8::decode_utf8;
use vstd::utf8::encode_utf8;
use vstd::utf8::valid_utf8;
use crate::strutil::try_string_from_utf8;

verus! {

/// The varint encoding of a non-negative number.
pub open spec fn varint(n: nat) -> Seq<u8>
    decreases n,
{
    if n < 128 {
        seq![n as u8]
    } else {
        seq![(128 + n % 128) as u8] + varint(n / 128)
    }
}

/// Upper bound on the values whose varint encoding can still be decoded
/// when the decoder stands at its `k`-th byte: the tenth byte may only
/// hold 0 or 1, so a full decode admits exactly the 64-bit range.
pub open spec fn varint_bound(k: int) -> nat
    decreases 9 - k,
{
    if k >= 9 {
        2
    } else {
        128 * varint_bound(k + 1)
    }
}

/// The decoded value and the position after it, reading a varint whose
/// `k`-th byte stands at position `i`; `None` on truncated input, on a
/// varint longer than ten bytes, and on a tenth byte above 1.
pub open spec fn dec_varint(b: Seq<u8>, i: int, k: int) -> Option<(nat, int)>
    decreases 9 - k,
{
    if !(0 <= i < b.len()) || !(0 <= k <= 9) {
        None
    } else {
        let byte = b[i];
        if byte < 128 {
            if k == 9 && byte > 1 {
                None
            } else {
                Some(((byte as nat), i + 1))
            }
        } else {
            if k == 9 {
                None
            } else {
                match dec_varint(b, i + 1, k + 1) {
                    None => None,
                    Some((v, j)) => Some((((byte - 128) as nat + 128 * v), j)),
                }
            }
        }
    }
}

/// A full decode admits exactly the 64-bit range.
pub proof fn lemma_varint_bound_full()
    ensures
        varint_bound(0) == 0x10000000000000000,
{
    assert(varint_bound(9) == 2);
    assert(varint_bound(8) == 0x100);
    assert(varint_bound(7) == 0x8000);
    assert(varint_bound(6) == 0x400000);
    assert(varint_bound(5) == 0x20000000);
    assert(varint_bound(4) == 0x1000000000);
    assert(varint_bound(3) == 0x80000000000);
    assert(varint_bound(2) == 0x4000000000000);
    assert(varint_bound(1) == 0x200000000000000);
    assert(varint_bound(0) == 0x10000000000000000);
}

/// The bound shrinks as the decoder advances.
proof fn lemma_varint_bound_le(k: int)
    requires
        0 <= k <= 9,
    ensures
        varint_bound(k) <= varint_bound(0),
    decreases k,
{
    if k > 0 {
        lemma_varint_bound_le(k - 1);
        assert(varint_bound(k - 1) == 128 * varint_bound(k));
        assert(varint_bound(k) >= 2) by {
            lemma_varint_bound_pos(k);
        }
    }
}

/// The bound is at least 2 everywhere.
proof fn lemma_varint_bound_pos(k: int)
    ensures
        varint_bound(k) >= 2,
    decreases 9 - k,
{
    if k < 9 {
        lemma_varint_bound_pos(k + 1);
    }
}

/// A decoded value respects the bound for the position it started at.
pub proof fn lemma_dec_varint_value_bound(b: Seq<u8>, i: int, k: int)
    ensures
        match dec_varint(b, i, k) {
            Some((v, j)) => v < varint_bound(k) && i < j <= b.len(),
            None => true,
        },
    decreases 9 - k,
{
    if 0 <= i < b.len() && 0 <= k <= 9 {
        let byte = b[i];
        if byte >= 128 && k < 9 {
            lemma_dec_varint_value_bound(b, i + 1, k + 1);
            match dec_varint(b, i + 1, k + 1) {
                Some((v, j)) => {
                    let c = (byte - 128) as nat;
                    let w = varint_bound(k + 1);
                    assert(c < 128);
                    assert(c + 128 * v < 128 * w) by (nonlinear_arith)
                        requires
                            v < w,
                            c < 128,
                    ;
                },
                None => {},
            }
        } else if byte < 128 && k == 9 && byte <= 1 {
            assert(varint_bound(9) == 2);
        } else if byte < 128 && k < 9 {
            lemma_varint_bound_pos(k);
            assert(varint_bound(k) == 128 * varint_bound(k + 1));
            assert(varint_bound(k + 1) >= 2) by {
                lemma_varint_bound_pos(k + 1);
            }
        }
    }
}

/// Decoding the encoding of `n`, embedded anywhere in a buffer, yields `n`
/// and the position after it.
pub proof fn lemma_dec_varint_of_encoding(b: Seq<u8>, i: int, n: nat, k: int)
    requires
        0 <= k <= 9,
        n < varint_bound(k),
        0 <= i,
        i + varint(n).len() <= b.len(),
        b.subrange(i, i + varint(n).len()) == varint(n),
    ensures
        dec_varint(b, i, k) == Some((n, i + varint(n).len())),
    decreases 9 - k,
{
    assert(b[i] == varint(n)[0]);
    if n < 128 {
        assert(varint(n) == seq![n as u8]);
        assert(b[i] == n as u8);
        if k == 9 {
            assert(n < 2);
        }
    } else {
        assert(b[i] == (128 + n % 128) as u8);
        assert(k < 9) by {
            if k == 9 {
                assert(varint_bound(9) == 2);
            }
        }
        let rest = varint(n / 128);
        assert(varint(n) == seq![(128 + n % 128) as u8] + rest);
        assert(b.subrange(i + 1, i + 1 + rest.len()) =~= rest) by {
            assert forall|t: int| 0 <= t < rest.len() implies b.subrange(
                i + 1,
                i + 1 + rest.len(),
            )[t] == rest[t] by {
                assert(b.subrange(i, i + varint(n).len())[t + 1] == varint(n)[t + 1]);
            }
        }
        assert(n / 128 < varint_bound(k + 1)) by (nonlinear_arith)
            requires
                n < varint_bound(k),
                varint_bound(k) == 128 * varint_bound(k + 1),
        ;
        lemma_dec_varint_of_encoding(b, i + 1, n / 128, k + 1);
        assert((b[i] - 128) as nat == n % 128);
        assert(n % 128 + 128 * (n / 128) == n);
    }
}

/// Read a varint at `pos`, following the wire rules exactly.
pub fn read_varint(b: &Vec<u8>, pos: usize) -> (r: Option<(u64, usize)>)
    ensures
        match r {
            Some((v, p)) => dec_varint(b@, pos as int, 0) == Some((v as nat, p as int)),
            None => dec_varint(b@, pos as int, 0) is None,
        },
{
    read_varint_rec(b, pos, 0)
}

/// Read the tail of a varint whose `k`-th byte stands at `pos`.
fn read_varint_rec(b: &Vec<u8>, pos: usize, k: usize) -> (r: Option<(u64, usize)>)
    requires
        k <= 9,
    ensures
        match r {
            Some((v, p)) => dec_varint(b@, pos as int, k as int) == Some((v as nat, p as int)),
            None => dec_varint(b@, pos as int, k as int) is None,
        },
    decreases 9 - k,
{
    if pos >= b.len() {
        return None;
    }
    let byte = b[pos];
    if byte < 128 {
        if k == 9 && byte > 1 {
            None
        } else {
            Some((byte as u64, pos + 1))
        }
    } else {
        if k == 9 {
            None
        } else {
            match read_varint_rec(b, pos + 1, k + 1) {
                None => None,
                Some((v, p)) => {
                    proof {
                        lemma_dec_varint_value_bound(b@, pos as int + 1, k as int + 1);
                        lemma_varint_bound_le(k as int);
                        lemma_varint_bound_full();
                        assert(128 * (v as nat) + 127 < 0x10000000000000000) by (nonlinear_arith)
                            requires
                                (v as nat) < varint_bound(k as int + 1),
                                128 * varint_bound(k as int + 1) == varint_bound(k as int),
                                varint_bound(k as int) <= 0x10000000000000000,
                        ;
                    }
                    let value: u64 = (byte - 128) as u64 + 128 * v;
                    Some((value, p))
                },
            }
        }
    }
}

/// Append the varint encoding of `n`.
pub fn push_varint(out: &mut Vec<u8>, n: u64)
    ensures
        final(out)@ == old(out)@ + varint(n as nat),
    decreases n,
{
    if n < 128 {
        out.push(n as u8);
        proof {
            assert(final(out)@ =~= old(out)@ + varint(n as nat));
        }
    } else {
        out.push(128 + (n % 128) as u8);
        push_varint(out, n / 128);
        proof {
            assert(final(out)@ =~= old(out)@ + varint(n as nat));
        }
    }
}

/// The 32 bytes at `i` and the position after them; `None` on truncation.
pub open spec fn dec_bytes32(b: Seq<u8>, i: int) -> Option<(Seq<u8>, int)> {
    if 0 <= i && i + 32 <= b.len() {
        Some((b.subrange(i, i + 32), i + 32))
    } else {
        None
    }
}

/// Read 32 raw bytes at `pos`.
pub fn read_bytes32(b: &Vec<u8>, pos: usize) -> (r: Option<([u8; 32], usize)>)
    ensures
        match r {
            Some((a, p)) => dec_bytes32(b@, pos as int) == Some((a@, p as int)),
            None => dec_bytes32(b@, pos as int) is None,
        },
{
    let blen = b.len();
    if pos > blen || blen - pos < 32 {
        return None;
    }
    let mut a: [u8; 32] = [0u8; 32];
    let mut i: usize = 0;
    while i < 32
        invariant
            pos + 32 <= blen,
            blen == b@.len(),
            i <= 32,
            a@.len() == 32,
            forall|j: int| 0 <= j < i ==> a@[j] == b@[pos + j],
        decreases 32 - i,
    {
        a[i] = b[pos + i];
        i += 1;
    }
    proof {
        assert(a@ =~= b@.subrange(pos as int, pos as int + 32));
    }
    Some((a, pos + 32))
}

/// Append 32 raw bytes.
pub fn push_bytes32(out: &mut Vec<u8>, a: &[u8; 32])
    ensures
        final(out)@ == old(out)@ + a@,
{
    let mut i: usize = 0;
    while i < 32
        invariant
            i <= 32,
            a@.len() == 32,
            out@ == old(out)@ + a@.subrange(0, i as int),
        decreases 32 - i,
    {
        out.push(a[i]);
        proof {
            assert(out@ =~= old(out)@ + a@.subrange(0, i as int + 1));
        }
        i += 1;
    }
    proof {
        assert(a@.subrange(0, 32) =~= a@);
    }
}

/// The wire form of a string: varint byte length, then UTF-8 bytes.
pub open spec fn str_bytes(s: Seq<char>) -> Seq<u8> {
    varint(encode_utf8(s).len()) + encode_utf8(s)
}

/// The decoded characters and the position after them; `None` on a bad
/// length, truncation, or bytes that are not valid UTF-8.
pub open spec fn dec_string(b: Seq<u8>, i: int) -> Option<(Seq<char>, int)> {
    match dec_varint(b, i, 0) {
        None => None,
        Some((n, j)) => {
            if j + n <= b.len() && valid_utf8(b.subrange(j, j + n)) {
                Some((decode_utf8(b.subrange(j, j + n)), j + n))
            } else {
                None
            }
        },
    }
}

/// The bytes of `b` from `from` (inclusive) to `to` (exclusive).
pub fn copy_range(b: &Vec<u8>, from: usize, to: usize) -> (r: Vec<u8>)
    requires
        from <= to <= b@.len(),
    ensures
        r@ == b@.subrange(from as int, to as int),
{
    let mut out: Vec<u8> = Vec::new();
    let mut i: usize = from;
    while i < to
        invariant
            from <= i <= to <= b@.len(),
            out@ == b@.subrange(from as int, i as int),
        decreases to - i,
    {
        out.push(b[i]);
        proof {
            assert(out@ =~= b@.subrange(from as int, i as int + 1));
        }
        i += 1;
    }
    out
}

/// Read a length-prefixed string at `pos`.
pub fn read_string(b: &Vec<u8>, pos: usize) -> (r: Option<(String, usize)>)
    ensures
        match r {
            Some((s, p)) => dec_string(b@, pos as int) == Some((s@, p as int)),
            None => dec_string(b@, pos as int) is None,
        },
{
    match read_varint(b, pos) {
        None => None,
        Some((n, j)) => {
            proof {
                lemma_dec_varint_value_bound(b@, pos as int, 0);
            }
            if n > (b.len() - j) as u64 {
                return None;
            }
            let end = j + n as usize;
            let sub = copy_range(b, j, end);
            let ghost subview = sub@;
            match try_string_from_utf8(sub) {
                None => None,
                Some(s) => {
                    proof {
                        vstd::utf8::encode_utf8_decode_utf8(s@);
                        assert(decode_utf8(subview) == s@);
                    }
                    Some((s, end))
                },
            }
        },
    }
}

/// Append a length-prefixed string.
pub fn push_string(out: &mut Vec<u8>, s: &str)
    ensures
        final(out)@ == old(out)@ + str_bytes(s@),
{
    let bytes = s.as_bytes();
    push_varint(out, bytes.len() as u64);
    let mut i: usize = 0;
    let ghost mid = out@;
    while i < bytes.len()
        invariant
            i <= bytes@.len(),
            bytes@ == encode_utf8(s@),
            out@ == mid + bytes@.subrange(0, i as int),
        decreases bytes@.len() - i,
    {
        out.push(bytes[i]);
        proof {
            assert(out@ =~= mid + bytes@.subrange(0, i as int + 1));
        }
        i += 1;
    }
    proof {
        assert(bytes@.subrange(0, bytes@.len() as int) =~= bytes@);
        assert(final(out)@ =~= old(out)@ + str_bytes(s@));
    }
}

/// Decoding the embedded encoding of a string yields its characters.
pub proof fn lemma_dec_string_of_encoding(b: Seq<u8>, i: int, s: Seq<char>)
    requires
        encode_utf8(s).len() < 0x10000000000000000,
        0 <= i,
        i + str_bytes(s).len() <= b.len(),
        b.subrange(i, i + str_bytes(s).len()) == str_bytes(s),
    ensures
        dec_string(b, i) == Some((s, i + str_bytes(s).len())),
{
    let u = encode_utf8(s);
    let v = varint(u.len());
    assert(b.subrange(i, i + v.len()) =~= v) by {
        assert forall|t: int| 0 <= t < v.len() implies b.subrange(i, i + v.len())[t] == v[t] by {
            assert(b.subrange(i, i + str_bytes(s).len())[t] == str_bytes(s)[t]);
        }
    }
    lemma_varint_bound_full();
    lemma_dec_varint_of_encoding(b, i, u.len(), 0);
    let j = i + v.len();
    assert(b.subrange(j, j + u.len()) =~= u) by {
        assert forall|t: int| 0 <= t < u.len() implies b.subrange(j, j + u.len())[t] == u[t] by {
            assert(b.subrange(i, i + str_bytes(s).len())[v.len() + t] == str_bytes(s)[v.len() + t]);
        }
    }
    vstd::utf8::encode_utf8_valid_utf8(s);
    vstd::utf8::encode_utf8_decode_utf8(s);
}

/// Decoding 32 embedded raw bytes yields them.
pub proof fn lemma_dec_bytes32_of_encoding(b: Seq<u8>, i: int, a: Seq<u8>)
    requires
        a.len() == 32,
        0 <= i,
        i + 32 <= b.len(),
        b.subrange(i, i + 32) == a,
    ensures
        dec_bytes32(b, i) == Some((a, i + 32)),
{
}

} // verus!
