//! The message envelope broadcast over the gossip topic, and its codec.
//!
//! A message is one of three kinds: a join announcement carrying a nickname
//! and the sender's peer id, a chat line, or a file offer carrying the
//! offered file's name, size and content hash. On the wire a message is the
//! kind's index as a varint followed by its fields in order; decoding a
//! malformed buffer yields `None`, never a panic, and bytes after a complete
//! message are tolerated.

use vstd::prelude::*;
use vstd::utf8::encode_utf8;
use crate::ids::ContentHash;
use crate::ids::PeerId;
use crate::wire::dec_bytes32;
use crate::wire::dec_string;
use crate::wire::dec_varint;
use crate::wire::lemma_dec_bytes32_of_encoding;
use crate::wire::lemma_dec_string_of_encoding;
use crate::wire::lemma_dec_varint_of_encoding;
use crate::wire::lemma_varint_bound_full;
use crate::wire::push_bytes32;
use crate::wire::push_string;
use crate::wire::push_varint;
use crate::wire::read_bytes32;
use crate::wire::read_string;
use crate::wire::read_varint;
use crate::wire::str_bytes;
use crate::wire::varint;

verus! {

/// A message exchanged between peers over the gossip network.
pub enum Message {
    /// Sent when a peer first connects, so others learn its display name.
    Join { nickname: String, endpoint_id: PeerId },
    /// A regular chat line from a peer.
    Chat { nickname: String, text: String },
    /// An offer of a file the sender can serve, addressed by content hash.
    FileOffer {
        nickname: String,
        endpoint_id: PeerId,
        filename: String,
        size: u64,
        hash: ContentHash,
    },
}

/// The mathematical content of a message: its fields as sequences.
pub enum MessageView {
    Join { nickname: Seq<char>, endpoint_id: Seq<u8> },
    Chat { nickname: Seq<char>, text: Seq<char> },
    FileOffer {
        nickname: Seq<char>,
        endpoint_id: Seq<u8>,
        filename: Seq<char>,
        size: u64,
        hash: Seq<u8>,
    },
}

impl View for Message {
    type V = MessageView;

    open spec fn view(&self) -> MessageView {
        match self {
            Message::Join { nickname, endpoint_id } => MessageView::Join {
                nickname: nickname@,
                endpoint_id: endpoint_id@,
            },
            Message::Chat { nickname, text } => MessageView::Chat {
                nickname: nickname@,
                text: text@,
            },
            Message::FileOffer { nickname, endpoint_id, filename, size, hash } => {
                MessageView::FileOffer {
                    nickname: nickname@,
                    endpoint_id: endpoint_id@,
                    filename: filename@,
                    size: *size,
                    hash: hash@,
                }
            },
        }
    }
}

/// The wire bytes of a message.
pub open spec fn msg_wire(m: MessageView) -> Seq<u8> {
    match m {
        MessageView::Join { nickname, endpoint_id } => {
            varint(0) + str_bytes(nickname) + endpoint_id
        },
        MessageView::Chat { nickname, text } => varint(1) + str_bytes(nickname) + str_bytes(text),
        MessageView::FileOffer { nickname, endpoint_id, filename, size, hash } => {
            varint(2) + str_bytes(nickname) + endpoint_id + str_bytes(filename) + varint(
                size as nat,
            ) + hash
        },
    }
}

/// A message view that an actual message can carry: ids are 32 bytes and
/// string lengths fit the varint range.
pub open spec fn msg_view_wf(m: MessageView) -> bool {
    match m {
        MessageView::Join { nickname, endpoint_id } => {
            endpoint_id.len() == 32 && encode_utf8(nickname).len() < 0x10000000000000000
        },
        MessageView::Chat { nickname, text } => {
            encode_utf8(nickname).len() < 0x10000000000000000 && encode_utf8(text).len()
                < 0x10000000000000000
        },
        MessageView::FileOffer { nickname, endpoint_id, filename, size: _, hash } => {
            endpoint_id.len() == 32 && hash.len() == 32 && encode_utf8(nickname).len()
                < 0x10000000000000000 && encode_utf8(filename).len() < 0x10000000000000000
        },
    }
}

/// The message parsed from a buffer, if its prefix is a well-formed message.
pub open spec fn msg_parse(b: Seq<u8>) -> Option<MessageView> {
    match dec_varint(b, 0, 0) {
        None => None,
        Some((tag, i)) => {
            if tag == 0 {
                match dec_string(b, i) {
                    None => None,
                    Some((nickname, j)) => match dec_bytes32(b, j) {
                        None => None,
                        Some((endpoint_id, _k)) => Some(
                            MessageView::Join { nickname, endpoint_id },
                        ),
                    },
                }
            } else if tag == 1 {
                match dec_string(b, i) {
                    None => None,
                    Some((nickname, j)) => match dec_string(b, j) {
                        None => None,
                        Some((text, _k)) => Some(MessageView::Chat { nickname, text }),
                    },
                }
            } else if tag == 2 {
                match dec_string(b, i) {
                    None => None,
                    Some((nickname, j)) => match dec_bytes32(b, j) {
                        None => None,
                        Some((endpoint_id, k)) => match dec_string(b, k) {
                            None => None,
                            Some((filename, l)) => match dec_varint(b, l, 0) {
                                None => None,
                                Some((size, p)) => match dec_bytes32(b, p) {
                                    None => None,
                                    Some((hash, _q)) => Some(
                                        MessageView::FileOffer {
                                            nickname,
                                            endpoint_id,
                                            filename,
                                            size: size as u64,
                                            hash,
                                        },
                                    ),
                                },
                            },
                        },
                    },
                }
            } else {
                None
            }
        },
    }
}

/// Encode a message for broadcast.
pub fn encode_message(m: &Message) -> (r: Vec<u8>)
    ensures
        r@ == msg_wire(m@),
{
    let mut out: Vec<u8> = Vec::new();
    match m {
        Message::Join { nickname, endpoint_id } => {
            push_varint(&mut out, 0);
            push_string(&mut out, nickname.as_str());
            push_bytes32(&mut out, &endpoint_id.bytes);
            proof {
                assert(out@ =~= msg_wire(m@));
            }
        },
        Message::Chat { nickname, text } => {
            push_varint(&mut out, 1);
            push_string(&mut out, nickname.as_str());
            push_string(&mut out, text.as_str());
            proof {
                assert(out@ =~= msg_wire(m@));
            }
        },
        Message::FileOffer { nickname, endpoint_id, filename, size, hash } => {
            push_varint(&mut out, 2);
            push_string(&mut out, nickname.as_str());
            push_bytes32(&mut out, &endpoint_id.bytes);
            push_string(&mut out, filename.as_str());
            push_varint(&mut out, *size);
            push_bytes32(&mut out, &hash.bytes);
            proof {
                assert(out@ =~= msg_wire(m@));
            }
        },
    }
    out
}

/// Decode a received buffer; `None` on anything malformed.
pub fn decode_message(b: &Vec<u8>) -> (r: Option<Message>)
    ensures
        match r {
            Some(m) => msg_parse(b@) == Some(m@),
            None => msg_parse(b@) is None,
        },
{
    match read_varint(b, 0) {
        None => None,
        Some((tag, i)) => {
            if tag == 0 {
                match read_string(b, i) {
                    None => None,
                    Some((nickname, j)) => match read_bytes32(b, j) {
                        None => None,
                        Some((id, _k)) => Some(
                            Message::Join { nickname, endpoint_id: PeerId::from_bytes(id) },
                        ),
                    },
                }
            } else if tag == 1 {
                match read_string(b, i) {
                    None => None,
                    Some((nickname, j)) => match read_string(b, j) {
                        None => None,
                        Some((text, _k)) => Some(Message::Chat { nickname, text }),
                    },
                }
            } else if tag == 2 {
                match read_string(b, i) {
                    None => None,
                    Some((nickname, j)) => match read_bytes32(b, j) {
                        None => None,
                        Some((id, k)) => match read_string(b, k) {
                            None => None,
                            Some((filename, l)) => match read_varint(b, l) {
                                None => None,
                                Some((size, p)) => match read_bytes32(b, p) {
                                    None => None,
                                    Some((hash, _q)) => Some(
                                        Message::FileOffer {
                                            nickname,
                                            endpoint_id: PeerId::from_bytes(id),
                                            filename,
                                            size,
                                            hash: ContentHash::from_bytes(hash),
                                        },
                                    ),
                                },
                            },
                        },
                    },
                }
            } else {
                None
            }
        },
    }
}

/// A slice of a buffer known piecewise equals the piece standing at that
/// offset.
proof fn lemma_piece_at(b: Seq<u8>, off: int, piece: Seq<u8>)
    requires
        0 <= off,
        off + piece.len() <= b.len(),
        forall|t: int| 0 <= t < piece.len() ==> b[off + t] == piece[t],
    ensures
        b.subrange(off, off + piece.len()) == piece,
{
    assert(b.subrange(off, off + piece.len()) =~= piece);
}

/// Decoding the encoding of any well-formed message yields that message:
/// the wire round trip is exact, including the 32-byte ids and hash.
pub proof fn lemma_message_roundtrip(m: MessageView)
    requires
        msg_view_wf(m),
    ensures
        msg_parse(msg_wire(m)) == Some(m),
{
    lemma_varint_bound_full();
    let b = msg_wire(m);
    match m {
        MessageView::Join { nickname, endpoint_id } => {
            let s1 = str_bytes(nickname);
            assert(b == varint(0) + s1 + endpoint_id);
            assert(varint(0) == seq![0u8]);
            lemma_piece_at(b, 0, varint(0));
            lemma_dec_varint_of_encoding(b, 0, 0, 0);
            lemma_piece_at(b, 1, s1);
            lemma_dec_string_of_encoding(b, 1, nickname);
            lemma_piece_at(b, 1 + s1.len() as int, endpoint_id);
            lemma_dec_bytes32_of_encoding(b, 1 + s1.len() as int, endpoint_id);
        },
        MessageView::Chat { nickname, text } => {
            let s1 = str_bytes(nickname);
            let s2 = str_bytes(text);
            assert(b == varint(1) + s1 + s2);
            assert(varint(1) == seq![1u8]);
            lemma_piece_at(b, 0, varint(1));
            lemma_dec_varint_of_encoding(b, 0, 1, 0);
            lemma_piece_at(b, 1, s1);
            lemma_dec_string_of_encoding(b, 1, nickname);
            lemma_piece_at(b, 1 + s1.len() as int, s2);
            lemma_dec_string_of_encoding(b, 1 + s1.len() as int, text);
        },
        MessageView::FileOffer { nickname, endpoint_id, filename, size, hash } => {
            let s1 = str_bytes(nickname);
            let s2 = str_bytes(filename);
            let vs = varint(size as nat);
            assert(b == varint(2) + s1 + endpoint_id + s2 + vs + hash);
            assert(varint(2) == seq![2u8]);
            lemma_piece_at(b, 0, varint(2));
            lemma_dec_varint_of_encoding(b, 0, 2, 0);
            let o1 = 1 + s1.len() as int;
            lemma_piece_at(b, 1, s1);
            lemma_dec_string_of_encoding(b, 1, nickname);
            let o2 = o1 + 32;
            lemma_piece_at(b, o1, endpoint_id);
            lemma_dec_bytes32_of_encoding(b, o1, endpoint_id);
            let o3 = o2 + s2.len() as int;
            lemma_piece_at(b, o2, s2);
            lemma_dec_string_of_encoding(b, o2, filename);
            let o4 = o3 + vs.len() as int;
            lemma_piece_at(b, o3, vs);
            lemma_dec_varint_of_encoding(b, o3, size as nat, 0);
            lemma_piece_at(b, o4, hash);
            lemma_dec_bytes32_of_encoding(b, o4, hash);
        },
    }
}

} // verus!
