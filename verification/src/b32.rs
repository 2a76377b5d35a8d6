//! Base32 text codec for tickets, lower case, without padding.
//!
//! Five data bits per symbol: 26 letters then the digits 2 to 7. Encoding
//! processes the input in five-byte groups, a final partial group padded
//! with zero bits. Decoding accepts letters of either case, rejects any
//! other character, rejects the group lengths that no input produces
//! (1, 3 or 6 symbols mod 8), and rejects non-zero padding bits.

use vstd::prelude::*;

verus! {

/// The symbol for a five-bit value, lower case.
pub open spec fn b32_char(v: u8) -> u8 {
    if v < 26 {
        (97 + v) as u8
    } else {
        (24 + v) as u8
    }
}

/// Whether a byte is a symbol the decoder accepts.
pub open spec fn sym_ok(c: u8) -> bool {
    (97 <= c <= 122) || (65 <= c <= 90) || (50 <= c <= 55)
}

/// The five-bit value of a symbol (zero on non-symbols).
pub open spec fn sym_v(c: u8) -> u8 {
    if 97 <= c <= 122 {
        (c - 97) as u8
    } else if 65 <= c <= 90 {
        (c - 65) as u8
    } else if 50 <= c <= 55 {
        (c - 50 + 26) as u8
    } else {
        0
    }
}

/// The eight five-bit values of a full five-byte group.
pub open spec fn block_vals(b0: u8, b1: u8, b2: u8, b3: u8, b4: u8) -> Seq<u8> {
    seq![
        b0 >> 3,
        ((b0 & 7) << 2) | (b1 >> 6),
        (b1 >> 1) & 31,
        ((b1 & 1) << 4) | (b2 >> 4),
        ((b2 & 15) << 1) | (b3 >> 7),
        (b3 >> 2) & 31,
        ((b3 & 3) << 3) | (b4 >> 5),
        b4 & 31,
    ]
}

/// The values of a final group of one byte.
pub open spec fn tail1_vals(b0: u8) -> Seq<u8> {
    seq![b0 >> 3, (b0 & 7) << 2]
}

/// The values of a final group of two bytes.
pub open spec fn tail2_vals(b0: u8, b1: u8) -> Seq<u8> {
    seq![b0 >> 3, ((b0 & 7) << 2) | (b1 >> 6), (b1 >> 1) & 31, (b1 & 1) << 4]
}

/// The values of a final group of three bytes.
pub open spec fn tail3_vals(b0: u8, b1: u8, b2: u8) -> Seq<u8> {
    seq![
        b0 >> 3,
        ((b0 & 7) << 2) | (b1 >> 6),
        (b1 >> 1) & 31,
        ((b1 & 1) << 4) | (b2 >> 4),
        (b2 & 15) << 1,
    ]
}

/// The values of a final group of four bytes.
pub open spec fn tail4_vals(b0: u8, b1: u8, b2: u8, b3: u8) -> Seq<u8> {
    seq![
        b0 >> 3,
        ((b0 & 7) << 2) | (b1 >> 6),
        (b1 >> 1) & 31,
        ((b1 & 1) << 4) | (b2 >> 4),
        ((b2 & 15) << 1) | (b3 >> 7),
        (b3 >> 2) & 31,
        (b3 & 3) << 3,
    ]
}

/// The five-bit values encoding a byte sequence.
pub open spec fn b32_vals(s: Seq<u8>) -> Seq<u8>
    decreases s.len(),
{
    if s.len() == 0 {
        Seq::empty()
    } else if s.len() == 1 {
        tail1_vals(s[0])
    } else if s.len() == 2 {
        tail2_vals(s[0], s[1])
    } else if s.len() == 3 {
        tail3_vals(s[0], s[1], s[2])
    } else if s.len() == 4 {
        tail4_vals(s[0], s[1], s[2], s[3])
    } else {
        block_vals(s[0], s[1], s[2], s[3], s[4]) + b32_vals(s.skip(5))
    }
}

/// The text encoding a byte sequence: its values as symbols.
pub open spec fn b32_text(s: Seq<u8>) -> Seq<u8> {
    b32_vals(s).map_values(|v: u8| b32_char(v))
}

/// The five bytes of a full eight-value group.
pub open spec fn block_bytes(
    v0: u8,
    v1: u8,
    v2: u8,
    v3: u8,
    v4: u8,
    v5: u8,
    v6: u8,
    v7: u8,
) -> Seq<u8> {
    seq![
        (v0 << 3) | (v1 >> 2),
        ((v1 & 3) << 6) | (v2 << 1) | (v3 >> 4),
        ((v3 & 15) << 4) | (v4 >> 1),
        ((v4 & 1) << 7) | (v5 << 2) | (v6 >> 3),
        ((v6 & 7) << 5) | v7,
    ]
}

/// The bytes recovered from a sequence of five-bit values; `None` on the
/// group lengths no encoding produces and on non-zero padding bits.
pub open spec fn vals_bytes(v: Seq<u8>) -> Option<Seq<u8>>
    decreases v.len(),
{
    if v.len() == 0 {
        Some(Seq::empty())
    } else if v.len() == 1 {
        None
    } else if v.len() == 2 {
        if v[1] & 3 == 0 {
            Some(seq![(v[0] << 3) | (v[1] >> 2)])
        } else {
            None
        }
    } else if v.len() == 3 {
        None
    } else if v.len() == 4 {
        if v[3] & 15 == 0 {
            Some(seq![(v[0] << 3) | (v[1] >> 2), ((v[1] & 3) << 6) | (v[2] << 1) | (v[3] >> 4)])
        } else {
            None
        }
    } else if v.len() == 5 {
        if v[4] & 1 == 0 {
            Some(
                seq![
                    (v[0] << 3) | (v[1] >> 2),
                    ((v[1] & 3) << 6) | (v[2] << 1) | (v[3] >> 4),
                    ((v[3] & 15) << 4) | (v[4] >> 1),
                ],
            )
        } else {
            None
        }
    } else if v.len() == 6 {
        None
    } else if v.len() == 7 {
        if v[6] & 7 == 0 {
            Some(
                seq![
                    (v[0] << 3) | (v[1] >> 2),
                    ((v[1] & 3) << 6) | (v[2] << 1) | (v[3] >> 4),
                    ((v[3] & 15) << 4) | (v[4] >> 1),
                    ((v[4] & 1) << 7) | (v[5] << 2) | (v[6] >> 3),
                ],
            )
        } else {
            None
        }
    } else {
        match vals_bytes(v.skip(8)) {
            None => None,
            Some(r) => Some(block_bytes(v[0], v[1], v[2], v[3], v[4], v[5], v[6], v[7]) + r),
        }
    }
}

/// Every byte of a text is an acceptable symbol.
pub open spec fn all_syms(t: Seq<u8>) -> bool {
    forall|i: int| 0 <= i < t.len() ==> sym_ok(#[trigger] t[i])
}

/// The five-bit values of a text's symbols.
pub open spec fn syms_of(t: Seq<u8>) -> Seq<u8> {
    Seq::new(t.len(), |i: int| sym_v(t[i]))
}

/// The bytes a text decodes to, or `None` when it is not an encoding.
pub open spec fn b32_decode_spec(t: Seq<u8>) -> Option<Seq<u8>> {
    if all_syms(t) {
        vals_bytes(syms_of(t))
    } else {
        None
    }
}

/// A symbol maps back to the value it encodes.
proof fn lemma_sym_roundtrip(v: u8)
    requires
        v < 32,
    ensures
        sym_ok(b32_char(v)),
        sym_v(b32_char(v)) == v,
{
}

/// Encoding a full group and decoding it recovers the five bytes, and every
/// value is below 32.
proof fn lemma_block_roundtrip(b0: u8, b1: u8, b2: u8, b3: u8, b4: u8)
    ensures
        forall|i: int| 0 <= i < 8 ==> #[trigger] block_vals(b0, b1, b2, b3, b4)[i] < 32,
        block_bytes(
            block_vals(b0, b1, b2, b3, b4)[0],
            block_vals(b0, b1, b2, b3, b4)[1],
            block_vals(b0, b1, b2, b3, b4)[2],
            block_vals(b0, b1, b2, b3, b4)[3],
            block_vals(b0, b1, b2, b3, b4)[4],
            block_vals(b0, b1, b2, b3, b4)[5],
            block_vals(b0, b1, b2, b3, b4)[6],
            block_vals(b0, b1, b2, b3, b4)[7],
        ) == seq![b0, b1, b2, b3, b4],
{
    assert((b0 >> 3) < 32 && (((b0 & 7) << 2) | (b1 >> 6)) < 32 && ((b1 >> 1) & 31) < 32 && (((b1
        & 1) << 4) | (b2 >> 4)) < 32 && (((b2 & 15) << 1) | (b3 >> 7)) < 32 && ((b3 >> 2) & 31)
        < 32 && (((b3 & 3) << 3) | (b4 >> 5)) < 32 && (b4 & 31) < 32) by (bit_vector);
    assert((((b0 >> 3) << 3) | ((((b0 & 7) << 2) | (b1 >> 6)) >> 2)) == b0 && (((((b0 & 7) << 2) | (
    b1 >> 6)) & 3) << 6) | (((b1 >> 1) & 31) << 1) | ((((b1 & 1) << 4) | (b2 >> 4)) >> 4) == b1 && (
    (((((b1 & 1) << 4) | (b2 >> 4))) & 15) << 4) | ((((b2 & 15) << 1) | (b3 >> 7)) >> 1) == b2 && ((
    (((b2 & 15) << 1) | (b3 >> 7)) & 1) << 7) | (((b3 >> 2) & 31) << 2) | ((((b3 & 3) << 3) | (b4
        >> 5)) >> 3) == b3 && (((((b3 & 3) << 3) | (b4 >> 5)) & 7) << 5) | (b4 & 31) == b4)
        by (bit_vector);
    assert(block_bytes(
        block_vals(b0, b1, b2, b3, b4)[0],
        block_vals(b0, b1, b2, b3, b4)[1],
        block_vals(b0, b1, b2, b3, b4)[2],
        block_vals(b0, b1, b2, b3, b4)[3],
        block_vals(b0, b1, b2, b3, b4)[4],
        block_vals(b0, b1, b2, b3, b4)[5],
        block_vals(b0, b1, b2, b3, b4)[6],
        block_vals(b0, b1, b2, b3, b4)[7],
    ) =~= seq![b0, b1, b2, b3, b4]);
}

/// As `lemma_block_roundtrip`, for a final group of one byte.
proof fn lemma_tail1_roundtrip(b0: u8)
    ensures
        forall|i: int| 0 <= i < 2 ==> #[trigger] tail1_vals(b0)[i] < 32,
        tail1_vals(b0)[1] & 3 == 0,
        ((tail1_vals(b0)[0] << 3) | (tail1_vals(b0)[1] >> 2)) == b0,
{
    assert((b0 >> 3) < 32 && ((b0 & 7) << 2) < 32 && (((b0 & 7) << 2) & 3) == 0 && (((b0 >> 3) << 3)
        | (((b0 & 7) << 2) >> 2)) == b0) by (bit_vector);
}

/// As `lemma_block_roundtrip`, for a final group of two bytes.
proof fn lemma_tail2_roundtrip(b0: u8, b1: u8)
    ensures
        forall|i: int| 0 <= i < 4 ==> #[trigger] tail2_vals(b0, b1)[i] < 32,
        tail2_vals(b0, b1)[3] & 15 == 0,
        ((tail2_vals(b0, b1)[0] << 3) | (tail2_vals(b0, b1)[1] >> 2)) == b0,
        (((tail2_vals(b0, b1)[1] & 3) << 6) | (tail2_vals(b0, b1)[2] << 1) | (tail2_vals(b0, b1)[3]
            >> 4)) == b1,
{
    assert((b0 >> 3) < 32 && (((b0 & 7) << 2) | (b1 >> 6)) < 32 && ((b1 >> 1) & 31) < 32 && ((b1
        & 1) << 4) < 32 && (((b1 & 1) << 4) & 15) == 0 && (((b0 >> 3) << 3) | ((((b0 & 7) << 2) | (
    b1 >> 6)) >> 2)) == b0 && ((((((b0 & 7) << 2) | (b1 >> 6)) & 3) << 6) | (((b1 >> 1) & 31) << 1)
        | (((b1 & 1) << 4) >> 4)) == b1) by (bit_vector);
}

/// As `lemma_block_roundtrip`, for a final group of three bytes.
proof fn lemma_tail3_roundtrip(b0: u8, b1: u8, b2: u8)
    ensures
        forall|i: int| 0 <= i < 5 ==> #[trigger] tail3_vals(b0, b1, b2)[i] < 32,
        tail3_vals(b0, b1, b2)[4] & 1 == 0,
        ((tail3_vals(b0, b1, b2)[0] << 3) | (tail3_vals(b0, b1, b2)[1] >> 2)) == b0,
        (((tail3_vals(b0, b1, b2)[1] & 3) << 6) | (tail3_vals(b0, b1, b2)[2] << 1) | (tail3_vals(
            b0,
            b1,
            b2,
        )[3] >> 4)) == b1,
        (((tail3_vals(b0, b1, b2)[3] & 15) << 4) | (tail3_vals(b0, b1, b2)[4] >> 1)) == b2,
{
    assert((b0 >> 3) < 32 && (((b0 & 7) << 2) | (b1 >> 6)) < 32 && ((b1 >> 1) & 31) < 32 && (((b1
        & 1) << 4) | (b2 >> 4)) < 32 && ((b2 & 15) << 1) < 32 && (((b2 & 15) << 1) & 1) == 0 && (((
    b0 >> 3) << 3) | ((((b0 & 7) << 2) | (b1 >> 6)) >> 2)) == b0 && ((((((b0 & 7) << 2) | (b1 >> 6))
        & 3) << 6) | (((b1 >> 1) & 31) << 1) | ((((b1 & 1) << 4) | (b2 >> 4)) >> 4)) == b1 && ((((((
    b1 & 1) << 4) | (b2 >> 4)) & 15) << 4) | (((b2 & 15) << 1) >> 1)) == b2) by (bit_vector);
}

/// As `lemma_block_roundtrip`, for a final group of four bytes.
proof fn lemma_tail4_roundtrip(b0: u8, b1: u8, b2: u8, b3: u8)
    ensures
        forall|i: int| 0 <= i < 7 ==> #[trigger] tail4_vals(b0, b1, b2, b3)[i] < 32,
        tail4_vals(b0, b1, b2, b3)[6] & 7 == 0,
        ((tail4_vals(b0, b1, b2, b3)[0] << 3) | (tail4_vals(b0, b1, b2, b3)[1] >> 2)) == b0,
        (((tail4_vals(b0, b1, b2, b3)[1] & 3) << 6) | (tail4_vals(b0, b1, b2, b3)[2] << 1) | (
        tail4_vals(b0, b1, b2, b3)[3] >> 4)) == b1,
        (((tail4_vals(b0, b1, b2, b3)[3] & 15) << 4) | (tail4_vals(b0, b1, b2, b3)[4] >> 1)) == b2,
        (((tail4_vals(b0, b1, b2, b3)[4] & 1) << 7) | (tail4_vals(b0, b1, b2, b3)[5] << 2) | (
        tail4_vals(b0, b1, b2, b3)[6] >> 3)) == b3,
{
    assert((b0 >> 3) < 32 && (((b0 & 7) << 2) | (b1 >> 6)) < 32 && ((b1 >> 1) & 31) < 32 && (((b1
        & 1) << 4) | (b2 >> 4)) < 32 && (((b2 & 15) << 1) | (b3 >> 7)) < 32 && ((b3 >> 2) & 31)
        < 32 && ((b3 & 3) << 3) < 32 && (((b3 & 3) << 3) & 7) == 0 && (((b0 >> 3) << 3) | ((((b0
        & 7) << 2) | (b1 >> 6)) >> 2)) == b0 && ((((((b0 & 7) << 2) | (b1 >> 6)) & 3) << 6) | (((b1
        >> 1) & 31) << 1) | ((((b1 & 1) << 4) | (b2 >> 4)) >> 4)) == b1 && ((((((b1 & 1) << 4) | (b2
        >> 4)) & 15) << 4) | ((((b2 & 15) << 1) | (b3 >> 7)) >> 1)) == b2 && ((((((b2 & 15) << 1) | (
    b3 >> 7)) & 1) << 7) | (((b3 >> 2) & 31) << 2) | ((((b3 & 3) << 3)) >> 3)) == b3)
        by (bit_vector);
}

/// Every value the encoder produces is below 32.
pub proof fn lemma_b32_vals_bound(s: Seq<u8>)
    ensures
        forall|i: int| 0 <= i < b32_vals(s).len() ==> #[trigger] b32_vals(s)[i] < 32,
    decreases s.len(),
{
    if s.len() == 0 {
    } else if s.len() == 1 {
        lemma_tail1_roundtrip(s[0]);
    } else if s.len() == 2 {
        lemma_tail2_roundtrip(s[0], s[1]);
    } else if s.len() == 3 {
        lemma_tail3_roundtrip(s[0], s[1], s[2]);
    } else if s.len() == 4 {
        lemma_tail4_roundtrip(s[0], s[1], s[2], s[3]);
    } else {
        lemma_block_roundtrip(s[0], s[1], s[2], s[3], s[4]);
        lemma_b32_vals_bound(s.skip(5));
        assert forall|i: int| 0 <= i < b32_vals(s).len() implies #[trigger] b32_vals(s)[i]
            < 32 by {
            if i >= 8 {
                assert(b32_vals(s)[i] == b32_vals(s.skip(5))[i - 8]);
            } else {
                assert(b32_vals(s)[i] == block_vals(s[0], s[1], s[2], s[3], s[4])[i]);
            }
        }
    }
}

/// Decoding the values that encode a byte sequence recovers it.
pub proof fn lemma_vals_roundtrip(s: Seq<u8>)
    ensures
        vals_bytes(b32_vals(s)) == Some(s),
    decreases s.len(),
{
    let v = b32_vals(s);
    if s.len() == 0 {
        assert(vals_bytes(v) == Some(s)) by {
            assert(s =~= Seq::<u8>::empty());
        }
    } else if s.len() == 1 {
        lemma_tail1_roundtrip(s[0]);
        assert(vals_bytes(v) is Some);
        assert(vals_bytes(v)->0 =~= s);
    } else if s.len() == 2 {
        lemma_tail2_roundtrip(s[0], s[1]);
        assert(vals_bytes(v) is Some);
        assert(vals_bytes(v)->0 =~= s);
    } else if s.len() == 3 {
        lemma_tail3_roundtrip(s[0], s[1], s[2]);
        assert(vals_bytes(v) is Some);
        assert(vals_bytes(v)->0 =~= s);
    } else if s.len() == 4 {
        lemma_tail4_roundtrip(s[0], s[1], s[2], s[3]);
        assert(vals_bytes(v) is Some);
        assert(vals_bytes(v)->0 =~= s);
    } else {
        let rest = b32_vals(s.skip(5));
        let block = block_vals(s[0], s[1], s[2], s[3], s[4]);
        assert(v == block + rest);
        lemma_vals_roundtrip(s.skip(5));
        assert(v.len() >= 8);
        assert(v.skip(8) =~= rest);
        assert forall|i: int| 0 <= i < 8 implies v[i] == block[i] by {}
        lemma_block_roundtrip(s[0], s[1], s[2], s[3], s[4]);
        assert(block_bytes(v[0], v[1], v[2], v[3], v[4], v[5], v[6], v[7]) == seq![
            s[0],
            s[1],
            s[2],
            s[3],
            s[4],
        ]);
        assert(vals_bytes(v)->0 =~= s);
    }
}

/// Encoded text decodes to the bytes it encodes.
pub proof fn lemma_b32_roundtrip(s: Seq<u8>)
    ensures
        b32_decode_spec(b32_text(s)) == Some(s),
{
    let vals = b32_vals(s);
    let t = b32_text(s);
    lemma_b32_vals_bound(s);
    assert forall|i: int| 0 <= i < t.len() implies sym_ok(#[trigger] t[i]) by {
        lemma_sym_roundtrip(vals[i]);
    }
    assert(syms_of(t) =~= vals) by {
        assert forall|i: int| 0 <= i < t.len() implies syms_of(t)[i] == vals[i] by {
            lemma_sym_roundtrip(vals[i]);
        }
    }
    lemma_vals_roundtrip(s);
}

/// Encoded text is ASCII.
pub proof fn lemma_b32_text_ascii(s: Seq<u8>)
    ensures
        forall|i: int| 0 <= i < b32_text(s).len() ==> #[trigger] b32_text(s)[i] < 0x80,
{
    lemma_b32_vals_bound(s);
}

/// Encode a byte sequence as base32 text bytes.
pub fn b32_encode(s: &Vec<u8>) -> (r: Vec<u8>)
    ensures
        r@ == b32_text(s@),
{
    let n = s.len();
    let mut vals: Vec<u8> = Vec::new();
    let mut i: usize = 0;
    proof {
        assert(s@.skip(0) =~= s@);
        assert(vals@ + b32_vals(s@) =~= b32_vals(s@));
    }
    while n - i >= 5
        invariant
            i <= n,
            n == s@.len(),
            b32_vals(s@) == vals@ + b32_vals(s@.skip(i as int)),
        decreases n - i,
    {
        let ghost pre = vals@;
        let ghost rem = s@.skip(i as int);
        let b0 = s[i];
        let b1 = s[i + 1];
        let b2 = s[i + 2];
        let b3 = s[i + 3];
        let b4 = s[i + 4];
        proof {
            assert(rem[0] == b0 && rem[1] == b1 && rem[2] == b2 && rem[3] == b3 && rem[4] == b4);
        }
        vals.push(b0 >> 3);
        vals.push(((b0 & 7) << 2) | (b1 >> 6));
        vals.push((b1 >> 1) & 31);
        vals.push(((b1 & 1) << 4) | (b2 >> 4));
        vals.push(((b2 & 15) << 1) | (b3 >> 7));
        vals.push((b3 >> 2) & 31);
        vals.push(((b3 & 3) << 3) | (b4 >> 5));
        vals.push(b4 & 31);
        proof {
            assert(vals@ =~= pre + block_vals(b0, b1, b2, b3, b4));
            assert(rem.skip(5) =~= s@.skip(i as int + 5));
            assert(b32_vals(rem) == block_vals(b0, b1, b2, b3, b4) + b32_vals(rem.skip(5)));
            assert(b32_vals(s@) =~= vals@ + b32_vals(s@.skip(i as int + 5)));
        }
        i += 5;
    }
    let rem_len = n - i;
    let ghost pre = vals@;
    let ghost rem = s@.skip(i as int);
    if rem_len == 1 {
        let b0 = s[i];
        proof {
            assert(rem[0] == b0);
        }
        vals.push(b0 >> 3);
        vals.push((b0 & 7) << 2);
        proof {
            assert(vals@ =~= pre + tail1_vals(b0));
            assert(b32_vals(s@) =~= vals@);
        }
    } else if rem_len == 2 {
        let b0 = s[i];
        let b1 = s[i + 1];
        proof {
            assert(rem[0] == b0 && rem[1] == b1);
        }
        vals.push(b0 >> 3);
        vals.push(((b0 & 7) << 2) | (b1 >> 6));
        vals.push((b1 >> 1) & 31);
        vals.push((b1 & 1) << 4);
        proof {
            assert(vals@ =~= pre + tail2_vals(b0, b1));
            assert(b32_vals(s@) =~= vals@);
        }
    } else if rem_len == 3 {
        let b0 = s[i];
        let b1 = s[i + 1];
        let b2 = s[i + 2];
        proof {
            assert(rem[0] == b0 && rem[1] == b1 && rem[2] == b2);
        }
        vals.push(b0 >> 3);
        vals.push(((b0 & 7) << 2) | (b1 >> 6));
        vals.push((b1 >> 1) & 31);
        vals.push(((b1 & 1) << 4) | (b2 >> 4));
        vals.push((b2 & 15) << 1);
        proof {
            assert(vals@ =~= pre + tail3_vals(b0, b1, b2));
            assert(b32_vals(s@) =~= vals@);
        }
    } else if rem_len == 4 {
        let b0 = s[i];
        let b1 = s[i + 1];
        let b2 = s[i + 2];
        let b3 = s[i + 3];
        proof {
            assert(rem[0] == b0 && rem[1] == b1 && rem[2] == b2 && rem[3] == b3);
        }
        vals.push(b0 >> 3);
        vals.push(((b0 & 7) << 2) | (b1 >> 6));
        vals.push((b1 >> 1) & 31);
        vals.push(((b1 & 1) << 4) | (b2 >> 4));
        vals.push(((b2 & 15) << 1) | (b3 >> 7));
        vals.push((b3 >> 2) & 31);
        vals.push((b3 & 3) << 3);
        proof {
            assert(vals@ =~= pre + tail4_vals(b0, b1, b2, b3));
            assert(b32_vals(s@) =~= vals@);
        }
    } else {
        proof {
            assert(rem =~= Seq::<u8>::empty());
            assert(b32_vals(s@) =~= vals@);
        }
    }
    proof {
        lemma_b32_vals_bound(s@);
    }
    let mut out: Vec<u8> = Vec::new();
    let mut j: usize = 0;
    while j < vals.len()
        invariant
            j <= vals@.len(),
            out@.len() == j,
            vals@ == b32_vals(s@),
            forall|k: int| 0 <= k < j ==> out@[k] == b32_char(#[trigger] vals@[k]),
        decreases vals@.len() - j,
    {
        let v = vals[j];
        proof {
            lemma_b32_vals_bound(s@);
            assert(vals@[j as int] < 32);
        }
        if v < 26 {
            out.push(97 + v);
        } else {
            out.push(24 + v);
        }
        j += 1;
    }
    proof {
        assert(out@ =~= b32_vals(s@).map_values(|v: u8| b32_char(v)));
    }
    out
}

/// Decode base32 text bytes; `None` on anything that is not an encoding.
pub fn b32_decode(t: &Vec<u8>) -> (r: Option<Vec<u8>>)
    ensures
        match r {
            Some(out) => b32_decode_spec(t@) == Some(out@),
            None => b32_decode_spec(t@) is None,
        },
{
    let mut vals: Vec<u8> = Vec::new();
    let mut i: usize = 0;
    while i < t.len()
        invariant
            i <= t@.len(),
            vals@.len() == i,
            forall|k: int| 0 <= k < i ==> sym_ok(#[trigger] t@[k]) && vals@[k] == sym_v(t@[k]),
        decreases t@.len() - i,
    {
        let c = t[i];
        if 97 <= c && c <= 122 {
            vals.push(c - 97);
        } else if 65 <= c && c <= 90 {
            vals.push(c - 65);
        } else if 50 <= c && c <= 55 {
            vals.push(c - 50 + 26);
        } else {
            proof {
                assert(!sym_ok(t@[i as int]));
            }
            return None;
        }
        i += 1;
    }
    proof {
        assert(all_syms(t@));
        assert(vals@ =~= syms_of(t@));
    }
    let m = vals.len();
    let mut out: Vec<u8> = Vec::new();
    let mut j: usize = 0;
    proof {
        assert(vals@.skip(0) =~= vals@);
    }
    while m - j >= 8
        invariant
            j <= m,
            m == vals@.len(),
            vals_bytes(vals@.skip(j as int)) is Some ==> vals_bytes(vals@) == Some(
                out@ + vals_bytes(vals@.skip(j as int))->0,
            ),
            vals_bytes(vals@.skip(j as int)) is None ==> vals_bytes(vals@) is None,
        decreases m - j,
    {
        let ghost pre = out@;
        let ghost rem = vals@.skip(j as int);
        let v0 = vals[j];
        let v1 = vals[j + 1];
        let v2 = vals[j + 2];
        let v3 = vals[j + 3];
        let v4 = vals[j + 4];
        let v5 = vals[j + 5];
        let v6 = vals[j + 6];
        let v7 = vals[j + 7];
        proof {
            assert(rem[0] == v0 && rem[1] == v1 && rem[2] == v2 && rem[3] == v3 && rem[4] == v4
                && rem[5] == v5 && rem[6] == v6 && rem[7] == v7);
        }
        out.push((v0 << 3) | (v1 >> 2));
        out.push(((v1 & 3) << 6) | (v2 << 1) | (v3 >> 4));
        out.push(((v3 & 15) << 4) | (v4 >> 1));
        out.push(((v4 & 1) << 7) | (v5 << 2) | (v6 >> 3));
        out.push(((v6 & 7) << 5) | v7);
        proof {
            assert(out@ =~= pre + block_bytes(v0, v1, v2, v3, v4, v5, v6, v7));
            assert(rem.skip(8) =~= vals@.skip(j as int + 8));
            if vals_bytes(vals@.skip(j as int + 8)) is Some {
                assert(vals_bytes(vals@) == Some(out@ + vals_bytes(vals@.skip(j as int + 8))->0))
                    by {
                    assert(vals_bytes(rem) == Some(
                        block_bytes(v0, v1, v2, v3, v4, v5, v6, v7) + vals_bytes(rem.skip(8))->0,
                    ));
                    assert(pre + (block_bytes(v0, v1, v2, v3, v4, v5, v6, v7) + vals_bytes(
                        rem.skip(8),
                    )->0) =~= out@ + vals_bytes(vals@.skip(j as int + 8))->0);
                }
            }
        }
        j += 8;
    }
    let rem_len = m - j;
    let ghost pre = out@;
    let ghost rem = vals@.skip(j as int);
    if rem_len == 0 {
        proof {
            assert(rem =~= Seq::<u8>::empty());
            assert(vals_bytes(rem) == Some(Seq::<u8>::empty()));
            assert(pre + Seq::<u8>::empty() =~= pre);
        }
        Some(out)
    } else if rem_len == 2 {
        let v0 = vals[j];
        let v1 = vals[j + 1];
        proof {
            assert(rem[0] == v0 && rem[1] == v1);
        }
        if v1 & 3 == 0 {
            out.push((v0 << 3) | (v1 >> 2));
            proof {
                assert(out@ =~= pre + vals_bytes(rem)->0);
            }
            Some(out)
        } else {
            None
        }
    } else if rem_len == 4 {
        let v0 = vals[j];
        let v1 = vals[j + 1];
        let v2 = vals[j + 2];
        let v3 = vals[j + 3];
        proof {
            assert(rem[0] == v0 && rem[1] == v1 && rem[2] == v2 && rem[3] == v3);
        }
        if v3 & 15 == 0 {
            out.push((v0 << 3) | (v1 >> 2));
            out.push(((v1 & 3) << 6) | (v2 << 1) | (v3 >> 4));
            proof {
                assert(out@ =~= pre + vals_bytes(rem)->0);
            }
            Some(out)
        } else {
            None
        }
    } else if rem_len == 5 {
        let v0 = vals[j];
        let v1 = vals[j + 1];
        let v2 = vals[j + 2];
        let v3 = vals[j + 3];
        let v4 = vals[j + 4];
        proof {
            assert(rem[0] == v0 && rem[1] == v1 && rem[2] == v2 && rem[3] == v3 && rem[4] == v4);
        }
        if v4 & 1 == 0 {
            out.push((v0 << 3) | (v1 >> 2));
            out.push(((v1 & 3) << 6) | (v2 << 1) | (v3 >> 4));
            out.push(((v3 & 15) << 4) | (v4 >> 1));
            proof {
                assert(out@ =~= pre + vals_bytes(rem)->0);
            }
            Some(out)
        } else {
            None
        }
    } else if rem_len == 7 {
        let v0 = vals[j];
        let v1 = vals[j + 1];
        let v2 = vals[j + 2];
        let v3 = vals[j + 3];
        let v4 = vals[j + 4];
        let v5 = vals[j + 5];
        let v6 = vals[j + 6];
        proof {
            assert(rem[0] == v0 && rem[1] == v1 && rem[2] == v2 && rem[3] == v3 && rem[4] == v4
                && rem[5] == v5 && rem[6] == v6);
        }
        if v6 & 7 == 0 {
            out.push((v0 << 3) | (v1 >> 2));
            out.push(((v1 & 3) << 6) | (v2 << 1) | (v3 >> 4));
            out.push(((v3 & 15) << 4) | (v4 >> 1));
            out.push(((v4 & 1) << 7) | (v5 << 2) | (v6 >> 3));
            proof {
                assert(out@ =~= pre + vals_bytes(rem)->0);
            }
            Some(out)
        } else {
            None
        }
    } else {
        proof {
            assert(vals_bytes(rem) is None);
        }
        None
    }
}

} // verus!
