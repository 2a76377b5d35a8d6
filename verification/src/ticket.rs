//! The shareable room ticket: a gossip topic id plus a set of bootstrap
//! peers, with a binary form and a human-friendly textual form.
//!
//! On the wire a ticket is the 32-byte topic id, a varint count, and each
//! bootstrap id as 32 raw bytes, the ids in ascending order and without
//! duplicates. The textual form is the kind prefix `chat` followed by the
//! base32 text of those bytes, and round-trips exactly; parsing an arbitrary
//! string yields an error, never a panic.

use vstd::prelude::*;
use crate::b32::b32_decode;
use crate::b32::b32_decode_spec;
use crate::b32::b32_encode;
use crate::b32::b32_text;
use crate::b32::lemma_b32_roundtrip;
use crate::b32::lemma_b32_text_ascii;
use crate::ids::bytes_lt;
use crate::ids::lemma_bytes_lt_total;
use crate::ids::lemma_bytes_lt_trans;
use crate::ids::PeerId;
use crate::ids::TopicId;
use crate::strutil::ascii_to_string;
use crate::strutil::ascii_view;
use vstd::string::StrSliceExecFns;
use crate::wire::dec_bytes32;
use crate::wire::dec_varint;
use crate::wire::lemma_dec_bytes32_of_encoding;
use crate::wire::lemma_dec_varint_of_encoding;
use crate::wire::lemma_varint_bound_full;
use crate::wire::push_bytes32;
use crate::wire::push_varint;
use crate::wire::read_bytes32;
use crate::wire::read_varint;
use crate::wire::varint;

verus! {

/// Why a ticket failed to parse.
#[derive(Debug, Clone, Copy, PartialEq, Eq, Structural)]
pub enum TicketError {
    /// The text does not begin with the ticket kind prefix.
    WrongKind,
    /// The text after the prefix is not base32.
    BadEncoding,
    /// The decoded bytes do not hold a ticket.
    BadPayload,
}

/// Everything needed to join a chat room.
#[derive(Debug, Clone)]
pub struct ChatTicket {
    /// The gossip topic that is the room.
    pub topic_id: TopicId,
    /// Known members to connect to first, ascending, without duplicates.
    bootstrap: Vec<PeerId>,
}

/// The mathematical content of a ticket.
pub struct TicketView {
    pub topic: Seq<u8>,
    pub bootstrap: Seq<Seq<u8>>,
}

impl View for ChatTicket {
    type V = TicketView;

    closed spec fn view(&self) -> TicketView {
        TicketView {
            topic: self.topic_id@,
            bootstrap: self.bootstrap@.map_values(|p: PeerId| p@),
        }
    }
}

/// A well-formed bootstrap list: 32-byte ids, strictly ascending.
pub open spec fn ids_wf(s: Seq<Seq<u8>>) -> bool {
    &&& forall|i: int| 0 <= i < s.len() ==> (#[trigger] s[i]).len() == 32
    &&& forall|i: int| 0 <= i < s.len() - 1 ==> bytes_lt(#[trigger] s[i], s[i + 1])
}

impl ChatTicket {
    /// The ticket's invariant: its bootstrap list is well-formed.
    pub open spec fn wf(&self) -> bool {
        ids_wf(self@.bootstrap)
    }
}

/// In a well-formed list the order holds between any two positions.
pub proof fn lemma_ids_wf_order(s: Seq<Seq<u8>>, i: int, j: int)
    requires
        ids_wf(s),
        0 <= i < j < s.len(),
    ensures
        bytes_lt(s[i], s[j]),
    decreases j - i,
{
    if j == i + 1 {
    } else {
        lemma_ids_wf_order(s, i, j - 1);
        lemma_bytes_lt_trans(s[i], s[j - 1], s[j]);
    }
}

/// The wire bytes of a bootstrap list.
pub open spec fn ids_wire(s: Seq<Seq<u8>>) -> Seq<u8>
    decreases s.len(),
{
    if s.len() == 0 {
        Seq::empty()
    } else {
        s[0] + ids_wire(s.drop_first())
    }
}

/// The wire bytes of a ticket.
pub open spec fn ticket_wire(t: TicketView) -> Seq<u8> {
    t.topic + varint(t.bootstrap.len()) + ids_wire(t.bootstrap)
}

/// Insertion into an ascending list, keeping it ascending and duplicate
/// free.
pub open spec fn insert_id(s: Seq<Seq<u8>>, x: Seq<u8>) -> Seq<Seq<u8>>
    decreases s.len(),
{
    if s.len() == 0 {
        seq![x]
    } else if bytes_lt(x, s[0]) {
        seq![x] + s
    } else if x == s[0] {
        s
    } else {
        seq![s[0]] + insert_id(s.drop_first(), x)
    }
}

/// The bootstrap list read from the wire: `count` ids folded into an
/// ascending list.
pub open spec fn parse_ids(b: Seq<u8>, i: int, count: nat, acc: Seq<Seq<u8>>) -> Option<
    (Seq<Seq<u8>>, int),
>
    decreases count,
{
    if count == 0 {
        Some((acc, i))
    } else {
        match dec_bytes32(b, i) {
            None => None,
            Some((id, j)) => parse_ids(b, j, (count - 1) as nat, insert_id(acc, id)),
        }
    }
}

/// The ticket parsed from a buffer, if its prefix is a well-formed ticket;
/// trailing bytes are tolerated.
pub open spec fn ticket_parse(b: Seq<u8>) -> Option<TicketView> {
    match dec_bytes32(b, 0) {
        None => None,
        Some((topic, i)) => match dec_varint(b, i, 0) {
            None => None,
            Some((count, j)) => match parse_ids(b, j, count, Seq::empty()) {
                None => None,
                Some((ids, _k)) => Some(TicketView { topic, bootstrap: ids }),
            },
        },
    }
}

/// The textual form of a ticket, as ASCII bytes: the kind prefix `chat`
/// then the base32 text of the wire bytes.
pub open spec fn ticket_text(t: TicketView) -> Seq<u8> {
    seq![99u8, 104u8, 97u8, 116u8] + b32_text(ticket_wire(t))
}

/// The ticket parsed from textual form, or the error saying what failed.
pub open spec fn ticket_text_parse(b: Seq<u8>) -> Result<TicketView, TicketError> {
    if !(b.len() >= 4 && b[0] == 99 && b[1] == 104 && b[2] == 97 && b[3] == 116) {
        Err(TicketError::WrongKind)
    } else {
        match b32_decode_spec(b.skip(4)) {
            None => Err(TicketError::BadEncoding),
            Some(bytes) => match ticket_parse(bytes) {
                None => Err(TicketError::BadPayload),
                Some(t) => Ok(t),
            },
        }
    }
}

/// Inserting an id keeps the list well-formed.
pub proof fn lemma_insert_id_wf(s: Seq<Seq<u8>>, x: Seq<u8>)
    requires
        ids_wf(s),
        x.len() == 32,
    ensures
        ids_wf(insert_id(s, x)),
    decreases s.len(),
{
    if s.len() == 0 {
    } else if bytes_lt(x, s[0]) {
        let r = seq![x] + s;
        assert forall|i: int| 0 <= i < r.len() - 1 implies bytes_lt(#[trigger] r[i], r[i + 1]) by {
            if i > 0 {
                assert(r[i] == s[i - 1] && r[i + 1] == s[i]);
            }
        }
    } else if x == s[0] {
    } else {
        lemma_bytes_lt_total(x, s[0]);
        assert(bytes_lt(s[0], x));
        let tail = s.drop_first();
        assert(ids_wf(tail)) by {
            assert forall|i: int| 0 <= i < tail.len() - 1 implies bytes_lt(
                #[trigger] tail[i],
                tail[i + 1],
            ) by {
                assert(tail[i] == s[i + 1] && tail[i + 1] == s[i + 2]);
            }
        }
        lemma_insert_id_wf(tail, x);
        let it = insert_id(tail, x);
        let r = seq![s[0]] + it;
        assert(insert_id(s, x) == r);
        assert forall|i: int| 0 <= i < r.len() - 1 implies bytes_lt(#[trigger] r[i], r[i + 1]) by {
            if i == 0 {
                if tail.len() == 0 {
                    assert(it == seq![x]);
                    assert(r[1] == x);
                } else if bytes_lt(x, tail[0]) {
                    assert(it == seq![x] + tail);
                    assert(r[1] == x);
                } else if x == tail[0] {
                    assert(r[1] == tail[0]);
                } else {
                    assert(it == seq![tail[0]] + insert_id(tail.drop_first(), x));
                    assert(r[1] == tail[0]);
                }
            } else {
                assert(r[i] == it[i - 1] && r[i + 1] == it[i]);
            }
        }
    }
}

/// Inserting an id already greater than every element appends it.
proof fn lemma_insert_id_append(s: Seq<Seq<u8>>, x: Seq<u8>)
    requires
        forall|i: int| 0 <= i < s.len() ==> bytes_lt(#[trigger] s[i], x),
    ensures
        insert_id(s, x) == s.push(x),
    decreases s.len(),
{
    if s.len() == 0 {
        assert(insert_id(s, x) =~~= s.push(x));
    } else {
        assert(bytes_lt(s[0], x));
        assert(!bytes_lt(x, s[0])) by {
            if bytes_lt(x, s[0]) {
                lemma_bytes_lt_trans(s[0], x, s[0]);
            }
        }
        assert(x != s[0]);
        let tail = s.drop_first();
        assert(forall|i: int| 0 <= i < tail.len() ==> bytes_lt(#[trigger] tail[i], x)) by {
            assert(forall|i: int| 0 <= i < tail.len() ==> tail[i] == s[i + 1]);
        }
        lemma_insert_id_append(tail, x);
        assert(insert_id(s, x) =~~= s.push(x));
    }
}

/// Reading back a well-formed bootstrap list embedded in a buffer yields it.
proof fn lemma_parse_ids_of_wire(b: Seq<u8>, i: int, acc: Seq<Seq<u8>>, ids: Seq<Seq<u8>>)
    requires
        ids_wf(acc + ids),
        0 <= i,
        i + ids_wire(ids).len() <= b.len(),
        b.subrange(i, i + ids_wire(ids).len()) == ids_wire(ids),
    ensures
        parse_ids(b, i, ids.len(), acc) == Some((acc + ids, i + ids_wire(ids).len())),
    decreases ids.len(),
{
    if ids.len() == 0 {
        assert(acc + ids =~~= acc);
    } else {
        let x = ids[0];
        let rest = ids.drop_first();
        assert(x.len() == 32) by {
            assert((acc + ids)[acc.len() as int] == x);
        }
        let w = ids_wire(ids);
        assert(w == x + ids_wire(rest));
        assert(b.subrange(i, i + 32) =~= x) by {
            assert forall|t: int| 0 <= t < 32 implies b[i + t] == x[t] by {
                assert(b.subrange(i, i + w.len())[t] == w[t]);
            }
        }
        lemma_dec_bytes32_of_encoding(b, i, x);
        assert(insert_id(acc, x) == acc.push(x)) by {
            assert forall|k: int| 0 <= k < acc.len() implies bytes_lt(#[trigger] acc[k], x) by {
                assert((acc + ids)[k] == acc[k]);
                assert((acc + ids)[acc.len() as int] == x);
                lemma_ids_wf_order(acc + ids, k, acc.len() as int);
            }
            lemma_insert_id_append(acc, x);
        }
        assert(acc.push(x) + rest =~~= acc + ids);
        assert(b.subrange(i + 32, i + 32 + ids_wire(rest).len()) =~= ids_wire(rest)) by {
            assert forall|t: int| 0 <= t < ids_wire(rest).len() implies b[i + 32 + t] == ids_wire(
                rest,
            )[t] by {
                assert(b.subrange(i, i + w.len())[32 + t] == w[32 + t]);
            }
        }
        lemma_parse_ids_of_wire(b, i + 32, acc.push(x), rest);
    }
}

/// Parsing the wire bytes of a well-formed ticket yields that ticket.
pub proof fn lemma_ticket_parse_wire(t: TicketView)
    requires
        t.topic.len() == 32,
        ids_wf(t.bootstrap),
        t.bootstrap.len() < 0x10000000000000000,
    ensures
        ticket_parse(ticket_wire(t)) == Some(t),
{
    let b = ticket_wire(t);
    let v = varint(t.bootstrap.len());
    let w = ids_wire(t.bootstrap);
    assert(b.subrange(0, 32) =~= t.topic);
    lemma_dec_bytes32_of_encoding(b, 0, t.topic);
    assert(b.subrange(32, 32 + v.len() as int) =~= v);
    lemma_varint_bound_full();
    lemma_dec_varint_of_encoding(b, 32, t.bootstrap.len(), 0);
    let j = 32 + v.len() as int;
    assert(b.subrange(j, j + w.len() as int) =~= w);
    assert(Seq::<Seq<u8>>::empty() + t.bootstrap =~~= t.bootstrap);
    lemma_parse_ids_of_wire(b, j, Seq::empty(), t.bootstrap);
}

/// Parsing the textual form of a well-formed ticket yields that ticket;
/// together with the totality of parsing this is the textual round trip.
pub proof fn lemma_ticket_text_roundtrip(t: TicketView)
    requires
        t.topic.len() == 32,
        ids_wf(t.bootstrap),
        t.bootstrap.len() < 0x10000000000000000,
    ensures
        ticket_text_parse(ticket_text(t)) == Ok::<TicketView, TicketError>(t),
{
    let b = ticket_text(t);
    let enc = b32_text(ticket_wire(t));
    assert(b.len() >= 4 && b[0] == 99 && b[1] == 104 && b[2] == 97 && b[3] == 116);
    assert(b.skip(4) =~= enc);
    lemma_b32_roundtrip(ticket_wire(t));
    lemma_ticket_parse_wire(t);
}

/// Relies on `rand::random`: fills an array with bytes from the
/// thread-local generator. Nothing is promised of the values.
#[verifier::external_body]
fn random_bytes32() -> (r: [u8; 32]) {
    rand::random()
}

impl ChatTicket {
    /// A ticket for a brand-new chat room: a fresh random topic id and no
    /// bootstrap peers yet.
    pub fn new_random() -> (r: Self)
        ensures
            r.wf(),
            r@.bootstrap.len() == 0,
    {
        let r = ChatTicket { topic_id: TopicId::from_bytes(random_bytes32()), bootstrap: Vec::new() };
        proof {
            assert(r@.bootstrap =~~= Seq::<Seq<u8>>::empty());
        }
        r
    }

    /// The bootstrap peers, ascending and without duplicates.
    pub fn bootstrap_ids(&self) -> (r: &Vec<PeerId>)
        ensures
            r@.map_values(|p: PeerId| p@) == self@.bootstrap,
    {
        &self.bootstrap
    }

    /// Add a peer to the bootstrap set; a peer already present is not
    /// duplicated.
    pub fn add_bootstrap(&mut self, id: PeerId)
        requires
            old(self).wf(),
        ensures
            final(self).wf(),
            final(self)@.topic == old(self)@.topic,
            final(self)@.bootstrap == insert_id(old(self)@.bootstrap, id@),
    {
        insert_sorted(&mut self.bootstrap, id);
        proof {
            lemma_insert_id_wf(old(self)@.bootstrap, id@);
        }
    }

    /// Encode the ticket into its byte representation.
    pub fn to_bytes(&self) -> (r: Vec<u8>)
        ensures
            r@ == ticket_wire(self@),
    {
        let mut out: Vec<u8> = Vec::new();
        push_bytes32(&mut out, &self.topic_id.bytes);
        push_varint(&mut out, self.bootstrap.len() as u64);
        let ghost head = out@;
        let ghost ids = self@.bootstrap;
        proof {
            assert(ids.skip(0) =~~= ids);
        }
        let mut i: usize = 0;
        while i < self.bootstrap.len()
            invariant
                i <= self.bootstrap@.len(),
                ids == self@.bootstrap,
                head + ids_wire(ids) == out@ + ids_wire(ids.skip(i as int)),
            decreases self.bootstrap@.len() - i,
        {
            let ghost pre = out@;
            push_bytes32(&mut out, &self.bootstrap[i].bytes);
            proof {
                let rem = ids.skip(i as int);
                assert(rem[0] == ids[i as int]);
                assert(rem.drop_first() =~~= ids.skip(i as int + 1));
                assert(ids_wire(rem) == ids[i as int] + ids_wire(ids.skip(i as int + 1)));
                assert(head + ids_wire(ids) =~= out@ + ids_wire(ids.skip(i as int + 1)));
            }
            i += 1;
        }
        proof {
            assert(ids.skip(ids.len() as int) =~~= Seq::<Seq<u8>>::empty());
            assert(head + ids_wire(ids) =~= out@);
            assert(out@ =~= ticket_wire(self@));
        }
        out
    }

    /// Decode a ticket from its byte representation.
    pub fn from_bytes(b: &Vec<u8>) -> (r: Result<Self, TicketError>)
        ensures
            match r {
                Ok(t) => ticket_parse(b@) == Some(t@) && t.wf(),
                Err(e) => ticket_parse(b@) is None && e == TicketError::BadPayload,
            },
    {
        let (topic, i) = match read_bytes32(b, 0) {
            None => {
                return Err(TicketError::BadPayload);
            },
            Some(p) => p,
        };
        let (count, j) = match read_varint(b, i) {
            None => {
                return Err(TicketError::BadPayload);
            },
            Some(p) => p,
        };
        let mut boot: Vec<PeerId> = Vec::new();
        let mut pos = j;
        let mut k: u64 = 0;
        proof {
            assert(boot@.map_values(|p: PeerId| p@) =~~= Seq::<Seq<u8>>::empty());
        }
        while k < count
            invariant
                ids_wf(boot@.map_values(|p: PeerId| p@)),
                k <= count,
                dec_bytes32(b@, 0) == Some((topic@, i as int)),
                dec_varint(b@, i as int, 0) == Some((count as nat, j as int)),
                parse_ids(b@, j as int, count as nat, Seq::empty()) == parse_ids(
                    b@,
                    pos as int,
                    (count - k) as nat,
                    boot@.map_values(|p: PeerId| p@),
                ),
            decreases count - k,
        {
            let ghost acc = boot@.map_values(|p: PeerId| p@);
            let (idb, next) = match read_bytes32(b, pos) {
                None => {
                    proof {
                        assert(parse_ids(b@, pos as int, (count - k) as nat, acc) is None);
                        assert(ticket_parse(b@) is None);
                    }
                    return Err(TicketError::BadPayload);
                },
                Some(p) => p,
            };
            let id = PeerId::from_bytes(idb);
            insert_sorted(&mut boot, id);
            proof {
                lemma_insert_id_wf(acc, id@);
            }
            pos = next;
            k += 1;
        }
        let t = ChatTicket { topic_id: crate::ids::TopicId::from_bytes(topic), bootstrap: boot };
        Ok(t)
    }

    /// Encode the ticket into its canonical textual form.
    pub fn serialize(&self) -> (r: String)
        ensures
            r@ == ascii_view(ticket_text(self@)),
    {
        let wire = self.to_bytes();
        let enc = b32_encode(&wire);
        let mut text: Vec<u8> = Vec::new();
        text.push(99);
        text.push(104);
        text.push(97);
        text.push(116);
        let mut i: usize = 0;
        while i < enc.len()
            invariant
                i <= enc@.len(),
                text@ == seq![99u8, 104u8, 97u8, 116u8] + enc@.subrange(0, i as int),
            decreases enc@.len() - i,
        {
            text.push(enc[i]);
            proof {
                assert(text@ =~= seq![99u8, 104u8, 97u8, 116u8] + enc@.subrange(0, i as int + 1));
            }
            i += 1;
        }
        proof {
            assert(enc@.subrange(0, enc@.len() as int) =~= enc@);
            assert(text@ =~= ticket_text(self@));
            lemma_b32_text_ascii(wire@);
            assert(crate::strutil::all_ascii(text@));
        }
        ascii_to_string(text)
    }

    /// Decode a ticket from its canonical textual form.
    pub fn deserialize(s: &str) -> (r: Result<Self, TicketError>)
        ensures
            match r {
                Ok(t) => ticket_text_parse(vstd::utf8::encode_utf8(s@)) == Ok::<TicketView, TicketError>(t@) && t.wf(),
                Err(e) => ticket_text_parse(vstd::utf8::encode_utf8(s@)) == Err::<
                    TicketView,
                    TicketError,
                >(e),
            },
    {
        let b = s.as_bytes_vec();
        if b.len() < 4 {
            return Err(TicketError::WrongKind);
        }
        if !(b[0] == 99 && b[1] == 104 && b[2] == 97 && b[3] == 116) {
            return Err(TicketError::WrongKind);
        }
        let rest = crate::wire::copy_range(&b, 4, b.len());
        proof {
            assert(rest@ =~= b@.skip(4));
        }
        match b32_decode(&rest) {
            None => Err(TicketError::BadEncoding),
            Some(bytes) => match Self::from_bytes(&bytes) {
                Err(_) => Err(TicketError::BadPayload),
                Ok(t) => Ok(t),
            },
        }
    }
}

/// Insert a peer id into an ascending vector, keeping it ascending and
/// duplicate free.
fn insert_sorted(v: &mut Vec<PeerId>, id: PeerId)
    requires
        ids_wf(old(v)@.map_values(|p: PeerId| p@)),
    ensures
        final(v)@.map_values(|p: PeerId| p@) == insert_id(
            old(v)@.map_values(|p: PeerId| p@),
            id@,
        ),
{
    let ghost s = v@.map_values(|p: PeerId| p@);
    let mut i: usize = 0;
    while i < v.len() && v[i].lt(&id)
        invariant
            i <= v@.len(),
            v == old(v),
            s == v@.map_values(|p: PeerId| p@),
            forall|j: int| 0 <= j < i ==> bytes_lt(#[trigger] s[j], id@),
        decreases v@.len() - i,
    {
        i += 1;
    }
    if i < v.len() && v[i] == id {
        proof {
            lemma_insert_id_skip(s, id@, i as int);
        }
    } else {
        proof {
            if i < v@.len() {
                lemma_bytes_lt_total(id@, s[i as int]);
            }
            lemma_insert_id_at(s, id@, i as int);
        }
        v.insert(i, id);
        proof {
            assert(v@.map_values(|p: PeerId| p@) =~~= s.insert(i as int, id@));
        }
    }
}

/// Where the scan stops at an equal element, insertion changes nothing.
proof fn lemma_insert_id_skip(s: Seq<Seq<u8>>, x: Seq<u8>, i: int)
    requires
        ids_wf(s),
        0 <= i < s.len(),
        forall|j: int| 0 <= j < i ==> bytes_lt(#[trigger] s[j], x),
        s[i] == x,
    ensures
        insert_id(s, x) == s,
    decreases i,
{
    if i == 0 {
        assert(!bytes_lt(x, s[0])) by {
            if bytes_lt(x, s[0]) {
                lemma_bytes_lt_trans(x, s[0], x);
            }
        }
    } else {
        assert(bytes_lt(s[0], x));
        assert(!bytes_lt(x, s[0])) by {
            if bytes_lt(x, s[0]) {
                lemma_bytes_lt_trans(s[0], x, s[0]);
            }
        }
        assert(x != s[0]);
        let tail = s.drop_first();
        assert(ids_wf(tail)) by {
            assert(forall|t: int| 0 <= t < tail.len() ==> #[trigger] tail[t] == s[t + 1]);
        }
        assert(forall|j: int| 0 <= j < i - 1 ==> bytes_lt(#[trigger] tail[j], x)) by {
            assert(forall|t: int| 0 <= t < tail.len() ==> #[trigger] tail[t] == s[t + 1]);
        }
        assert(tail[i - 1] == x);
        lemma_insert_id_skip(tail, x, i - 1);
        assert(insert_id(s, x) =~~= s);
    }
}

/// Where the scan stops at a strictly greater element (or the end),
/// insertion places the id there.
proof fn lemma_insert_id_at(s: Seq<Seq<u8>>, x: Seq<u8>, i: int)
    requires
        ids_wf(s),
        0 <= i <= s.len(),
        forall|j: int| 0 <= j < i ==> bytes_lt(#[trigger] s[j], x),
        i < s.len() ==> bytes_lt(x, s[i]),
    ensures
        insert_id(s, x) == s.insert(i, x),
    decreases i,
{
    if s.len() == 0 {
        assert(insert_id(s, x) =~~= s.insert(0, x));
    } else if i == 0 {
        assert(bytes_lt(x, s[0]));
        assert(insert_id(s, x) =~~= s.insert(0, x));
    } else {
        assert(bytes_lt(s[0], x));
        assert(!bytes_lt(x, s[0])) by {
            if bytes_lt(x, s[0]) {
                lemma_bytes_lt_trans(s[0], x, s[0]);
            }
        }
        assert(x != s[0]) by {
            if x == s[0] {
                assert(bytes_lt(s[0], s[0]));
            }
        }
        let tail = s.drop_first();
        assert(ids_wf(tail)) by {
            assert(forall|t: int| 0 <= t < tail.len() ==> #[trigger] tail[t] == s[t + 1]);
        }
        assert(forall|j: int| 0 <= j < i - 1 ==> bytes_lt(#[trigger] tail[j], x)) by {
            assert(forall|t: int| 0 <= t < tail.len() ==> #[trigger] tail[t] == s[t + 1]);
        }
        assert(i - 1 < tail.len() ==> bytes_lt(x, tail[i - 1]));
        lemma_insert_id_at(tail, x, i - 1);
        assert(insert_id(s, x) =~~= s.insert(i, x));
    }
}

} // verus!
