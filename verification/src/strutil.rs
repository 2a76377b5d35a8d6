//! Small string-building blocks shared across the crate.
//!
//! Text is produced as ASCII byte vectors with exact byte-level
//! specifications and turned into `String`s at the edge; character buffers
//! (edit fields) are `Vec<char>` with their sequence view.

use vstd::prelude::*;
use vstd::utf8::*;

verus! {

/// The characters whose codes are the given ASCII bytes, one byte per
/// character.
pub open spec fn ascii_view(b: Seq<u8>) -> Seq<char> {
    Seq::new(b.len(), |i: int| b[i] as char)
}

/// Every byte is in the ASCII range.
pub open spec fn all_ascii(b: Seq<u8>) -> bool {
    forall|i: int| 0 <= i < b.len() ==> b[i] < 0x80
}

/// An ASCII byte sequence is valid UTF-8 and decodes byte-for-byte.
pub proof fn lemma_ascii_bytes_utf8(b: Seq<u8>)
    requires
        all_ascii(b),
    ensures
        valid_utf8(b),
        is_ascii_chars(ascii_view(b)),
        encode_utf8(ascii_view(b)) == b,
        decode_utf8(b) == ascii_view(b),
{
    let chars = ascii_view(b);
    assert forall|i: int| 0 <= i < chars.len() implies '\0' <= #[trigger] chars[i] <= '\u{7f}' by {
        assert(b[i] < 0x80);
    }
    assert(is_ascii_chars(chars));
    is_ascii_chars_encode_utf8(chars);
    assert(encode_utf8(chars) =~= b);
    encode_utf8_valid_utf8(chars);
    encode_utf8_decode_utf8(chars);
}

/// Relies on `String::from_utf8`: on valid UTF-8 input it returns the string
/// whose UTF-8 bytes are exactly the given bytes, and it fails exactly on
/// input that is not valid UTF-8.
#[verifier::external_body]
pub(crate) fn try_string_from_utf8(bytes: Vec<u8>) -> (r: Option<String>)
    ensures
        match r {
            Some(s) => valid_utf8(bytes@) && encode_utf8(s@) == bytes@,
            None => !valid_utf8(bytes@),
        },
{
    String::from_utf8(bytes).ok()
}

/// Build a `String` from ASCII bytes; its characters are the bytes read one
/// per character.
pub fn ascii_to_string(bytes: Vec<u8>) -> (r: String)
    requires
        all_ascii(bytes@),
    ensures
        r@ == ascii_view(bytes@),
{
    proof {
        lemma_ascii_bytes_utf8(bytes@);
    }
    let ghost b = bytes@;
    match try_string_from_utf8(bytes) {
        Some(s) => {
            proof {
                encode_utf8_decode_utf8(s@);
                assert(decode_utf8(encode_utf8(s@)) == s@);
                assert(decode_utf8(b) == ascii_view(b));
            }
            s
        },
        None => {
            proof {
                assert(false);
            }
            String::new()
        },
    }
}

/// Appending one character extends the UTF-8 encoding by that character's
/// encoding.
pub proof fn lemma_encode_utf8_push(s: Seq<char>, c: char)
    ensures
        encode_utf8(s.push(c)) == encode_utf8(s) + encode_scalar(c as u32),
    decreases s.len(),
{
    if s.len() == 0 {
        assert(s.push(c).drop_first() =~= s);
        assert(encode_utf8(s) + encode_scalar(c as u32) =~= encode_scalar(c as u32));
    } else {
        assert(s.push(c).drop_first() =~= s.drop_first().push(c));
        lemma_encode_utf8_push(s.drop_first(), c);
        assert(encode_utf8(s.push(c)) =~= encode_utf8(s) + encode_scalar(c as u32));
    }
}

/// Append the UTF-8 encoding of one character.
pub fn push_char_utf8(out: &mut Vec<u8>, c: char)
    ensures
        final(out)@ == old(out)@ + encode_scalar(c as u32),
{
    proof {
        char_is_scalar(c);
    }
    let s = c as u32;
    if s <= 0x7F {
        out.push((s & 0x7F) as u8);
        assert(final(out)@ =~= old(out)@ + encode_scalar(s));
    } else if s <= 0x7FF {
        out.push(0xC0u8 | ((s >> 6) & 0x1F) as u8);
        out.push(0x80u8 | (s & 0x3F) as u8);
        assert(final(out)@ =~= old(out)@ + encode_scalar(s));
    } else if s <= 0xFFFF {
        out.push(0xE0u8 | ((s >> 12) & 0x0F) as u8);
        out.push(0x80u8 | ((s >> 6) & 0x3F) as u8);
        out.push(0x80u8 | (s & 0x3F) as u8);
        assert(final(out)@ =~= old(out)@ + encode_scalar(s));
    } else {
        out.push(0xF0u8 | ((s >> 18) & 0x7) as u8);
        out.push(0x80u8 | ((s >> 12) & 0x3F) as u8);
        out.push(0x80u8 | ((s >> 6) & 0x3F) as u8);
        out.push(0x80u8 | (s & 0x3F) as u8);
        assert(final(out)@ =~= old(out)@ + encode_scalar(s));
    }
}

/// The UTF-8 bytes of a character buffer.
pub fn utf8_of_chars(v: &Vec<char>) -> (r: Vec<u8>)
    ensures
        r@ == encode_utf8(v@),
{
    let mut out: Vec<u8> = Vec::new();
    let mut i: usize = 0;
    while i < v.len()
        invariant
            i <= v.len(),
            out@ == encode_utf8(v@.subrange(0, i as int)),
        decreases v.len() - i,
    {
        proof {
            lemma_encode_utf8_push(v@.subrange(0, i as int), v@[i as int]);
            assert(v@.subrange(0, i as int).push(v@[i as int]) =~= v@.subrange(0, i as int + 1));
        }
        push_char_utf8(&mut out, v[i]);
        i += 1;
    }
    proof {
        assert(v@.subrange(0, v@.len() as int) =~= v@);
    }
    out
}

/// Build a `String` whose characters are exactly the given buffer.
pub fn chars_to_string(v: &Vec<char>) -> (r: String)
    ensures
        r@ == v@,
{
    let bytes = utf8_of_chars(v);
    proof {
        encode_utf8_valid_utf8(v@);
    }
    match try_string_from_utf8(bytes) {
        Some(s) => {
            proof {
                encode_utf8_decode_utf8(s@);
                encode_utf8_decode_utf8(v@);
            }
            s
        },
        None => {
            proof {
                assert(false);
            }
            String::new()
        },
    }
}

/// The character buffer holding a string's characters.
pub fn string_to_chars(s: &str) -> (r: Vec<char>)
    ensures
        r@ == s@,
{
    let n = s.unicode_len();
    let mut out: Vec<char> = Vec::new();
    let mut i: usize = 0;
    while i < n
        invariant
            n == s@.len(),
            i <= n,
            out@ == s@.subrange(0, i as int),
        decreases n - i,
    {
        out.push(s.get_char(i));
        proof {
            assert(out@ =~= s@.subrange(0, i as int + 1));
        }
        i += 1;
    }
    proof {
        assert(s@.subrange(0, n as int) =~= s@);
    }
    out
}

/// Whether a character buffer holds exactly the characters of a string.
pub fn chars_eq_str(v: &Vec<char>, s: &str) -> (r: bool)
    ensures
        r == (v@ == s@),
{
    let n = s.unicode_len();
    if v.len() != n {
        proof {
            assert(v@.len() != s@.len());
        }
        return false;
    }
    let mut i: usize = 0;
    while i < n
        invariant
            n == s@.len(),
            v@.len() == n,
            i <= n,
            forall|j: int| 0 <= j < i ==> v@[j] == s@[j],
        decreases n - i,
    {
        if v[i] != s.get_char(i) {
            return false;
        }
        i += 1;
    }
    proof {
        assert(v@ =~= s@);
    }
    true
}

/// The ASCII byte of a decimal digit.
pub open spec fn digit_byte(d: int) -> u8 {
    (48 + d) as u8
}

/// The decimal digits of a non-negative number, most significant first.
pub open spec fn dec_bytes(n: int) -> Seq<u8>
    recommends
        n >= 0,
    decreases n,
{
    if n < 10 {
        seq![digit_byte(n)]
    } else {
        dec_bytes(n / 10).push(digit_byte(n % 10))
    }
}

/// Decimal digits are ASCII.
pub proof fn lemma_dec_bytes_ascii(n: int)
    requires
        n >= 0,
    ensures
        all_ascii(dec_bytes(n)),
    decreases n,
{
    if n >= 10 {
        lemma_dec_bytes_ascii(n / 10);
    }
}

/// Append the decimal digits of `n`.
pub fn push_dec_u64(out: &mut Vec<u8>, n: u64)
    ensures
        final(out)@ == old(out)@ + dec_bytes(n as int),
    decreases n,
{
    if n >= 10 {
        push_dec_u64(out, n / 10);
        out.push(48 + (n % 10) as u8);
        proof {
            assert(final(out)@ =~= old(out)@ + dec_bytes(n as int));
        }
    } else {
        out.push(48 + n as u8);
        proof {
            assert(final(out)@ =~= old(out)@ + dec_bytes(n as int));
        }
    }
}

/// The ASCII byte of a hexadecimal digit, lower case.
pub open spec fn hex_digit_byte(d: int) -> u8 {
    if d < 10 {
        (48 + d) as u8
    } else {
        (87 + d) as u8
    }
}

/// The two hexadecimal digits of one byte.
pub open spec fn hex_byte_pair(b: u8) -> Seq<u8> {
    seq![hex_digit_byte(b as int / 16), hex_digit_byte(b as int % 16)]
}

/// The hexadecimal digits of a byte sequence.
pub open spec fn hex_bytes(s: Seq<u8>) -> Seq<u8>
    decreases s.len(),
{
    if s.len() == 0 {
        Seq::empty()
    } else {
        hex_byte_pair(s[0]) + hex_bytes(s.drop_first())
    }
}

/// Hexadecimal digits are ASCII.
pub proof fn lemma_hex_bytes_ascii(s: Seq<u8>)
    ensures
        all_ascii(hex_bytes(s)),
        hex_bytes(s).len() == 2 * s.len(),
    decreases s.len(),
{
    if s.len() > 0 {
        lemma_hex_bytes_ascii(s.drop_first());
    }
}

/// Appending one byte extends the hexadecimal digits by that byte's pair.
pub proof fn lemma_hex_bytes_push(s: Seq<u8>, b: u8)
    ensures
        hex_bytes(s.push(b)) == hex_bytes(s) + hex_byte_pair(b),
    decreases s.len(),
{
    if s.len() == 0 {
        assert(s.push(b).drop_first() =~= s);
        assert(hex_bytes(s.push(b)) =~= hex_bytes(s) + hex_byte_pair(b));
    } else {
        assert(s.push(b).drop_first() =~= s.drop_first().push(b));
        lemma_hex_bytes_push(s.drop_first(), b);
        assert(hex_bytes(s.push(b)) =~= hex_bytes(s) + hex_byte_pair(b));
    }
}

/// Append the two hexadecimal digits of one byte.
pub fn push_hex_byte(out: &mut Vec<u8>, b: u8)
    ensures
        final(out)@ == old(out)@ + hex_byte_pair(b),
{
    let hi = b / 16;
    let lo = b % 16;
    if hi < 10 {
        out.push(48 + hi);
    } else {
        out.push(87 + hi);
    }
    if lo < 10 {
        out.push(48 + lo);
    } else {
        out.push(87 + lo);
    }
    proof {
        assert(final(out)@ =~= old(out)@ + hex_byte_pair(b));
    }
}

/// A whitespace character, in the ASCII sense.
pub open spec fn is_ws(c: char) -> bool {
    c == ' ' || c == '\t' || c == '\n' || c == '\r'
}

/// The sequence with its leading whitespace removed.
pub open spec fn trim_front(s: Seq<char>) -> Seq<char>
    decreases s.len(),
{
    if s.len() > 0 && is_ws(s[0]) {
        trim_front(s.drop_first())
    } else {
        s
    }
}

/// The sequence with its trailing whitespace removed.
pub open spec fn trim_back(s: Seq<char>) -> Seq<char>
    decreases s.len(),
{
    if s.len() > 0 && is_ws(s.last()) {
        trim_back(s.drop_last())
    } else {
        s
    }
}

/// The sequence with whitespace removed at both ends.
pub open spec fn trim_spec(s: Seq<char>) -> Seq<char> {
    trim_back(trim_front(s))
}

/// Whether this character is whitespace.
pub fn is_ws_char(c: char) -> (r: bool)
    ensures
        r == is_ws(c),
{
    c == ' ' || c == '\t' || c == '\n' || c == '\r'
}

/// The buffer with whitespace removed at both ends.
pub fn trimmed_chars(v: &Vec<char>) -> (r: Vec<char>)
    ensures
        r@ == trim_spec(v@),
{
    let n = v.len();
    proof {
        assert(v@.subrange(0, n as int) =~= v@);
    }
    let mut start: usize = 0;
    while start < n && is_ws_char(v[start])
        invariant
            n == v@.len(),
            start <= n,
            trim_front(v@) == trim_front(v@.subrange(start as int, n as int)),
        decreases n - start,
    {
        proof {
            assert(v@.subrange(start as int, n as int).drop_first() =~= v@.subrange(
                start as int + 1,
                n as int,
            ));
        }
        start += 1;
    }
    proof {
        assert(trim_front(v@) == v@.subrange(start as int, n as int));
    }
    let mut end: usize = n;
    while end > start && is_ws_char(v[end - 1])
        invariant
            n == v@.len(),
            start <= end <= n,
            trim_front(v@) == v@.subrange(start as int, n as int),
            trim_back(v@.subrange(start as int, n as int)) == trim_back(
                v@.subrange(start as int, end as int),
            ),
        decreases end,
    {
        proof {
            assert(v@.subrange(start as int, end as int).drop_last() =~= v@.subrange(
                start as int,
                end as int - 1,
            ));
        }
        end -= 1;
    }
    proof {
        assert(trim_spec(v@) == v@.subrange(start as int, end as int));
    }
    let mut out: Vec<char> = Vec::new();
    let mut i: usize = start;
    while i < end
        invariant
            start <= i <= end <= n,
            n == v@.len(),
            out@ == v@.subrange(start as int, i as int),
        decreases end - i,
    {
        out.push(v[i]);
        proof {
            assert(out@ =~= v@.subrange(start as int, i as int + 1));
        }
        i += 1;
    }
    out
}

} // verus!
