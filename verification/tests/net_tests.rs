use piper_chat::codec::decode_message;
use piper_chat::codec::encode_message;
use piper_chat::codec::Message;
use piper_chat::conn::ConnTracker;
use piper_chat::conn::ConnType;
use piper_chat::conn::PathKind;
use piper_chat::ids::ContentHash;
use piper_chat::ids::PeerId;
use piper_chat::ticket::ChatTicket;
use piper_chat::ticket::TicketError;

#[test]
fn ticket_roundtrip() {
    let mut original = ChatTicket::new_random();
    original.add_bootstrap(PeerId::from_bytes([9u8; 32]));
    let bytes = original.to_bytes();
    let decoded = ChatTicket::from_bytes(&bytes).expect("should decode");
    assert_eq!(original.topic_id, decoded.topic_id);
    assert_eq!(original.bootstrap_ids(), decoded.bootstrap_ids());
}

#[test]
fn ticket_base32_roundtrip() {
    let original = ChatTicket::new_random();
    let base32_str = original.serialize();
    let decoded = ChatTicket::deserialize(&base32_str).expect("should decode base32");
    assert_eq!(original.topic_id, decoded.topic_id);
}

#[test]
fn ticket_deserialize_invalid() {
    let result = ChatTicket::deserialize("not-a-valid-ticket");
    assert!(result.is_err());
}

#[test]
fn ticket_roundtrip_with_bootstrap_set() {
    let mut original = ChatTicket::new_random();
    original.add_bootstrap(PeerId::from_bytes([3u8; 32]));
    original.add_bootstrap(PeerId::from_bytes([1u8; 32]));
    original.add_bootstrap(PeerId::from_bytes([3u8; 32]));
    assert_eq!(original.bootstrap_ids().len(), 2);
    assert_eq!(original.bootstrap_ids()[0], PeerId::from_bytes([1u8; 32]));
    assert_eq!(original.bootstrap_ids()[1], PeerId::from_bytes([3u8; 32]));
    let text = original.serialize();
    assert!(text.starts_with("chat"));
    let decoded = ChatTicket::deserialize(&text).expect("should decode");
    assert_eq!(original.topic_id, decoded.topic_id);
    assert_eq!(original.bootstrap_ids(), decoded.bootstrap_ids());
}

#[test]
fn ticket_errors_name_what_failed() {
    assert!(matches!(ChatTicket::deserialize("xyz"), Err(TicketError::WrongKind)));
    assert!(matches!(ChatTicket::deserialize("chat!!!!"), Err(TicketError::BadEncoding)));
    assert!(matches!(ChatTicket::deserialize("chataa"), Err(TicketError::BadPayload)));
}

#[test]
fn message_chat_roundtrip() {
    let msg = Message::Chat { nickname: "Alice".into(), text: "hello!".into() };
    let bytes = encode_message(&msg);
    let decoded: Message = decode_message(&bytes).unwrap();
    match decoded {
        Message::Chat { nickname, text } => {
            assert_eq!(nickname, "Alice");
            assert_eq!(text, "hello!");
        },
        _ => panic!("expected Chat variant"),
    }
}

#[test]
fn message_join_roundtrip() {
    let id = PeerId::from_bytes([1u8; 32]);
    let msg = Message::Join { nickname: "Bob".into(), endpoint_id: id };
    let bytes = encode_message(&msg);
    let decoded: Message = decode_message(&bytes).unwrap();
    match decoded {
        Message::Join { nickname, endpoint_id } => {
            assert_eq!(nickname, "Bob");
            assert_eq!(endpoint_id, id);
        },
        _ => panic!("expected Join variant"),
    }
}

#[test]
fn message_file_offer_roundtrip() {
    let id = PeerId::from_bytes([3u8; 32]);
    let hash = ContentHash::from_bytes([7u8; 32]);
    let msg = Message::FileOffer {
        nickname: "Alice".into(),
        endpoint_id: id,
        filename: "photo.png".into(),
        size: 123456,
        hash,
    };
    let bytes = encode_message(&msg);
    let decoded: Message = decode_message(&bytes).unwrap();
    match decoded {
        Message::FileOffer { nickname, endpoint_id, filename, size, hash: h } => {
            assert_eq!(nickname, "Alice");
            assert_eq!(endpoint_id, id);
            assert_eq!(filename, "photo.png");
            assert_eq!(size, 123456);
            assert_eq!(h, hash);
        },
        _ => panic!("expected FileOffer variant"),
    }
}

#[test]
fn message_roundtrip_keeps_unicode_and_extremes() {
    let msg = Message::Chat { nickname: "Zoë".into(), text: "héllo — ≈ 終".into() };
    let bytes = encode_message(&msg);
    match decode_message(&bytes).unwrap() {
        Message::Chat { nickname, text } => {
            assert_eq!(nickname, "Zoë");
            assert_eq!(text, "héllo — ≈ 終");
        },
        _ => panic!("expected Chat variant"),
    }
    let msg = Message::FileOffer {
        nickname: String::new(),
        endpoint_id: PeerId::from_bytes([0u8; 32]),
        filename: String::new(),
        size: u64::MAX,
        hash: ContentHash::from_bytes([255u8; 32]),
    };
    let bytes = encode_message(&msg);
    match decode_message(&bytes).unwrap() {
        Message::FileOffer { nickname, filename, size, .. } => {
            assert_eq!(nickname, "");
            assert_eq!(filename, "");
            assert_eq!(size, u64::MAX);
        },
        _ => panic!("expected FileOffer variant"),
    }
}

#[test]
fn malformed_payloads_decode_to_none() {
    assert!(decode_message(&Vec::new()).is_none());
    assert!(decode_message(&vec![9u8]).is_none());
    assert!(decode_message(&vec![0u8, 5, 104, 105]).is_none());
    assert!(decode_message(&vec![1u8, 2, 0xff, 0xfe]).is_none());
}

#[test]
fn conn_tracker_unknown_by_default() {
    let tracker = ConnTracker::new();
    let id = PeerId::from_bytes([42u8; 32]);
    assert!(matches!(tracker.conn_type(&id), ConnType::Unknown));
}

#[test]
fn conn_tracker_follows_last_record() {
    let mut tracker = ConnTracker::new();
    let a = PeerId::from_bytes([1u8; 32]);
    let b = PeerId::from_bytes([2u8; 32]);
    tracker.record(a, Some(PathKind::Ip));
    assert!(matches!(tracker.conn_type(&a), ConnType::Direct));
    assert!(matches!(tracker.conn_type(&b), ConnType::Unknown));
    tracker.record(a, Some(PathKind::Relayed));
    assert!(matches!(tracker.conn_type(&a), ConnType::Relay));
    tracker.record(a, None);
    assert!(matches!(tracker.conn_type(&a), ConnType::Unknown));
    tracker.record(b, Some(PathKind::Relayed));
    tracker.record(b, Some(PathKind::Ip));
    assert!(matches!(tracker.conn_type(&b), ConnType::Direct));
}

#[test]
fn peer_short_form_is_hex_of_leading_bytes() {
    let mut bytes = [0u8; 32];
    bytes[0] = 0xde;
    bytes[1] = 0xad;
    bytes[2] = 0xbe;
    bytes[3] = 0xef;
    bytes[4] = 0x01;
    let id = PeerId::from_bytes(bytes);
    assert_eq!(id.fmt_short(), "deadbeef01");
}
