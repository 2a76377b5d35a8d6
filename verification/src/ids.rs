//! Fixed-size identifiers: peers, gossip topics, and blob content.
//!
//! All three are 32-byte values. On the wire each is carried as its raw
//! bytes; a peer id is additionally ordered so that peer lists iterate
//! deterministically.

use vstd::prelude::*;
use crate::strutil::ascii_to_string;
use crate::strutil::ascii_view;
use crate::strutil::hex_bytes;
use crate::strutil::lemma_hex_bytes_ascii;
use crate::strutil::lemma_hex_bytes_push;
use crate::strutil::push_hex_byte;

verus! {

/// Identifier of a network participant (an Ed25519 public key on the wire).
#[derive(Clone, Copy, Debug)]
pub struct PeerId {
    pub bytes: [u8; 32],
}

/// Identifier of a gossip topic (a chat room).
#[derive(Clone, Copy, Debug)]
pub struct TopicId {
    pub bytes: [u8; 32],
}

/// Content digest identifying a blob; the correlation key for transfers.
#[derive(Clone, Copy, Debug)]
pub struct ContentHash {
    pub bytes: [u8; 32],
}

impl View for PeerId {
    type V = Seq<u8>;

    open spec fn view(&self) -> Seq<u8> {
        self.bytes@
    }
}

impl View for TopicId {
    type V = Seq<u8>;

    open spec fn view(&self) -> Seq<u8> {
        self.bytes@
    }
}

impl View for ContentHash {
    type V = Seq<u8>;

    open spec fn view(&self) -> Seq<u8> {
        self.bytes@
    }
}

/// Equality of two 32-byte arrays, element by element.
fn bytes32_eq(a: &[u8; 32], b: &[u8; 32]) -> (r: bool)
    ensures
        r <==> a@ =~= b@,
{
    let mut i: usize = 0;
    while i < 32
        invariant
            i <= 32,
            forall|j: int| 0 <= j < i ==> a@[j] == b@[j],
        decreases 32 - i,
    {
        if a[i] != b[i] {
            return false;
        }
        i += 1;
    }
    true
}

impl PeerId {
    pub fn from_bytes(bytes: [u8; 32]) -> (r: Self)
        ensures
            r@ == bytes@,
    {
        PeerId { bytes }
    }

    pub fn as_bytes(&self) -> (r: &[u8; 32])
        ensures
            r@ == self@,
    {
        &self.bytes
    }
}

impl TopicId {
    pub fn from_bytes(bytes: [u8; 32]) -> (r: Self)
        ensures
            r@ == bytes@,
    {
        TopicId { bytes }
    }

    pub fn as_bytes(&self) -> (r: &[u8; 32])
        ensures
            r@ == self@,
    {
        &self.bytes
    }
}

impl ContentHash {
    pub fn from_bytes(bytes: [u8; 32]) -> (r: Self)
        ensures
            r@ == bytes@,
    {
        ContentHash { bytes }
    }

    pub fn as_bytes(&self) -> (r: &[u8; 32])
        ensures
            r@ == self@,
    {
        &self.bytes
    }
}

impl PartialEq for PeerId {
    fn eq(&self, other: &Self) -> (r: bool) {
        bytes32_eq(&self.bytes, &other.bytes)
    }
}

impl vstd::std_specs::cmp::PartialEqSpecImpl for PeerId {
    open spec fn obeys_eq_spec() -> bool {
        true
    }

    open spec fn eq_spec(&self, other: &Self) -> bool {
        self@ == other@
    }
}

impl PartialEq for TopicId {
    fn eq(&self, other: &Self) -> (r: bool) {
        bytes32_eq(&self.bytes, &other.bytes)
    }
}

impl vstd::std_specs::cmp::PartialEqSpecImpl for TopicId {
    open spec fn obeys_eq_spec() -> bool {
        true
    }

    open spec fn eq_spec(&self, other: &Self) -> bool {
        self@ == other@
    }
}

impl PartialEq for ContentHash {
    fn eq(&self, other: &Self) -> (r: bool) {
        bytes32_eq(&self.bytes, &other.bytes)
    }
}

impl vstd::std_specs::cmp::PartialEqSpecImpl for ContentHash {
    open spec fn obeys_eq_spec() -> bool {
        true
    }

    open spec fn eq_spec(&self, other: &Self) -> bool {
        self@ == other@
    }
}

/// Strict lexicographic order on 32-byte values.
pub open spec fn bytes_lt(a: Seq<u8>, b: Seq<u8>) -> bool {
    exists|i: int| 0 <= i < 32 && a[i] < b[i] && (forall|j: int| 0 <= j < i ==> a[j] == b[j])
}

/// Strict lexicographic order on peer ids; the iteration order of peer
/// lists and bootstrap sets.
pub open spec fn peer_id_lt(a: PeerId, b: PeerId) -> bool {
    bytes_lt(a@, b@)
}

impl PeerId {
    /// Short display form: the first five bytes in lower-case hexadecimal,
    /// used as a placeholder name until a peer announces its nickname.
    pub fn fmt_short(&self) -> (r: String)
        ensures
            r@ == ascii_view(hex_bytes(self@.take(5))),
    {
        let mut out: Vec<u8> = Vec::new();
        proof {
            assert(self@.take(0) =~= Seq::<u8>::empty());
        }
        let mut i: usize = 0;
        while i < 5
            invariant
                i <= 5,
                self@.len() == 32,
                out@ == hex_bytes(self@.take(i as int)),
            decreases 5 - i,
        {
            proof {
                lemma_hex_bytes_push(self@.take(i as int), self@[i as int]);
                assert(self@.take(i as int).push(self@[i as int]) =~= self@.take(i as int + 1));
            }
            push_hex_byte(&mut out, self.bytes[i]);
            i += 1;
        }
        proof {
            lemma_hex_bytes_ascii(self@.take(5));
        }
        ascii_to_string(out)
    }

    /// Whether `self` orders strictly before `other`.
    pub fn lt(&self, other: &Self) -> (r: bool)
        ensures
            r == peer_id_lt(*self, *other),
    {
        let mut i: usize = 0;
        while i < 32
            invariant
                i <= 32,
                forall|j: int| 0 <= j < i ==> self@[j] == other@[j],
            decreases 32 - i,
        {
            let ghost wi = i as int;
            if self.bytes[i] < other.bytes[i] {
                assert(self@[wi] < other@[wi]);
                assert(peer_id_lt(*self, *other));
                return true;
            }
            if self.bytes[i] > other.bytes[i] {
                assert(!peer_id_lt(*self, *other)) by {
                    if peer_id_lt(*self, *other) {
                        let k = choose|k: int|
                            0 <= k < 32 && self@[k] < other@[k] && (forall|j: int|
                                0 <= j < k ==> self@[j] == other@[j]);
                        if k > wi {
                            assert(self@[wi] == other@[wi]);
                        }
                    }
                };
                return false;
            }
            i += 1;
        }
        assert(!peer_id_lt(*self, *other)) by {
            if peer_id_lt(*self, *other) {
                let k = choose|k: int|
                    0 <= k < 32 && self@[k] < other@[k] && (forall|j: int|
                        0 <= j < k ==> self@[j] == other@[j]);
                assert(self@[k] == other@[k]);
            }
        };
        false
    }
}

/// The order `bytes_lt` is transitive.
pub proof fn lemma_bytes_lt_trans(a: Seq<u8>, b: Seq<u8>, c: Seq<u8>)
    requires
        bytes_lt(a, b),
        bytes_lt(b, c),
    ensures
        bytes_lt(a, c),
{
    let i = choose|i: int| 0 <= i < 32 && a[i] < b[i] && (forall|j: int| 0 <= j < i ==> a[j] == b[j]);
    let k = choose|k: int| 0 <= k < 32 && b[k] < c[k] && (forall|j: int| 0 <= j < k ==> b[j] == c[j]);
    if i <= k {
        assert(a[i] < c[i] && (forall|j: int| 0 <= j < i ==> a[j] == c[j]));
    } else {
        assert(a[k] < c[k] && (forall|j: int| 0 <= j < k ==> a[j] == c[j]));
    }
}

/// Any two distinct 32-byte values are ordered one way or the other.
pub proof fn lemma_bytes_lt_total(a: Seq<u8>, b: Seq<u8>)
    requires
        a.len() == 32,
        b.len() == 32,
        a != b,
    ensures
        bytes_lt(a, b) || bytes_lt(b, a),
{
    if (forall|j: int| 0 <= j < 32 ==> a[j] == b[j]) {
        assert(a =~= b);
    } else {
        assert(exists|i: int| 0 <= i < 32 && a[i] != b[i]);
        lemma_min_index_where_differ(a, b, 0);
        let i = min_index_where_differ(a, b, 0);
        if a[i] < b[i] {
            assert(bytes_lt(a, b));
        } else {
            assert(bytes_lt(b, a));
        }
    }
}

/// First index at or after `from` where two 32-byte values differ, assuming
/// one exists.
spec fn min_index_where_differ(a: Seq<u8>, b: Seq<u8>, from: int) -> int
    decreases 32 - from,
{
    if from < 0 || from >= 32 {
        32
    } else if a[from] != b[from] {
        from
    } else {
        min_index_where_differ(a, b, from + 1)
    }
}

/// `min_index_where_differ` finds the first differing index.
proof fn lemma_min_index_where_differ(a: Seq<u8>, b: Seq<u8>, from: int)
    requires
        0 <= from <= 32,
        exists|i: int| from <= i < 32 && a[i] != b[i],
    ensures
        from <= min_index_where_differ(a, b, from) < 32,
        a[min_index_where_differ(a, b, from)] != b[min_index_where_differ(a, b, from)],
        forall|j: int| from <= j < min_index_where_differ(a, b, from) ==> a[j] == b[j],
    decreases 32 - from,
{
    if from < 32 && a[from] == b[from] {
        lemma_min_index_where_differ(a, b, from + 1);
    }
}

} // verus!
