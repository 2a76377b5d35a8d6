use piper_chat::chat::App;
use piper_chat::chat::AppMode;
use piper_chat::conn::ConnType;
use piper_chat::conn::PeerInfo;
use piper_chat::event::apply_transfer_event;
use piper_chat::event::handle_chat_key;
use piper_chat::event::handle_file_pane_key;
use piper_chat::event::handle_network_event;
use piper_chat::event::make_share_offer;
use piper_chat::event::progress_event;
use piper_chat::event::completion_event;
use piper_chat::event::NetEvent;
use piper_chat::event::PaneAction;
use piper_chat::chat::ChatLine;
use piper_chat::ids::ContentHash;
use piper_chat::ids::PeerId;
use piper_chat::keys::Key;
use piper_chat::keys::KeyPress;
use piper_chat::ticket::ChatTicket;
use piper_chat::transfer::TransferState;

fn key(code: Key) -> KeyPress {
    KeyPress { code, shift: false, ctrl: false }
}

/// Peer A creates a topic and B joins with A's ticket: A sees B come up
/// and answers with its join announcement; B's peer list gains exactly A,
/// under A's nickname, still `Unknown` until the next tick.
#[test]
fn topic_join_introduces_peers() {
    let a_id = PeerId::from_bytes([10u8; 32]);
    let b_id = PeerId::from_bytes([20u8; 32]);
    let a_name = "alice".to_string();

    let mut ticket = ChatTicket::new_random();
    ticket.add_bootstrap(a_id);
    let pasted = ticket.serialize();
    let joined = ChatTicket::deserialize(&pasted).expect("ticket round-trips");
    assert_eq!(joined.topic_id, ticket.topic_id);
    assert_eq!(joined.bootstrap_ids()[0], a_id);

    let mut app_a = App::new();
    app_a.peers.insert(a_id, PeerInfo { name: "alice (you)".into(), conn_type: ConnType::Unknown });
    let broadcast = handle_network_event(&mut app_a, NetEvent::NeighborUp(b_id), &a_name, &a_id);
    let join_bytes = broadcast.expect("a peer coming up is answered with a join");

    let mut app_b = App::new();
    app_b.peers.insert(b_id, PeerInfo { name: "bob (you)".into(), conn_type: ConnType::Unknown });
    let reply = handle_network_event(
        &mut app_b,
        NetEvent::Received(join_bytes),
        &"bob".to_string(),
        &b_id,
    );
    assert!(reply.is_none());
    assert_eq!(app_b.peers.len(), 2);
    let info = app_b.peers.get(&a_id).expect("A is now known to B");
    assert_eq!(info.name, "alice");
    assert!(matches!(info.conn_type, ConnType::Unknown));
}

/// A shares a file and broadcasts the offer; B accepts it, starts the
/// download, and worker reports drive the entry to `Complete` with exactly
/// one completion notice.
#[test]
fn shared_file_downloads_to_completion() {
    let a_id = PeerId::from_bytes([10u8; 32]);
    let b_id = PeerId::from_bytes([20u8; 32]);
    let hash = ContentHash::from_bytes([77u8; 32]);

    let mut app_a = App::new();
    let (offer_a, bytes) = make_share_offer(&"alice".to_string(), &a_id, "notes.txt".into(), 9000, hash);
    app_a.transfers.add_sent(offer_a);
    assert!(matches!(app_a.transfers.entries[0].state, TransferState::Sharing));

    let mut app_b = App::new();
    let r = handle_network_event(&mut app_b, NetEvent::Received(bytes), &"bob".to_string(), &b_id);
    assert!(r.is_none());
    assert_eq!(app_b.transfers.entries.len(), 1);
    assert!(matches!(app_b.transfers.entries[0].state, TransferState::Pending));
    assert_eq!(app_b.transfers.entries[0].offer.filename, "notes.txt");

    app_b.focus_file_pane();
    let action = handle_file_pane_key(&mut app_b, key(Key::Enter));
    let offer_b = match action {
        PaneAction::StartDownload(o) => o,
        _ => panic!("enter on a pending offer starts its download"),
    };
    assert_eq!(offer_b.size, 9000);
    assert!(matches!(
        app_b.transfers.entries[0].state,
        TransferState::Downloading { bytes_received: 0, total_bytes: 9000 }
    ));

    apply_transfer_event(&mut app_b, progress_event(&offer_b, 4000));
    apply_transfer_event(&mut app_b, progress_event(&offer_b, 9000));
    apply_transfer_event(&mut app_b, completion_event(&offer_b, "/downloads/notes.txt".into()));

    match &app_b.transfers.entries[0].state {
        TransferState::Complete(p) => assert_eq!(p, "/downloads/notes.txt"),
        other => panic!("expected Complete, got {:?}", other),
    }
    let completions = app_b
        .messages
        .iter()
        .filter(|m| matches!(m, ChatLine::System(t) if t.contains("download complete")))
        .count();
    assert_eq!(completions, 1);
}

/// Quitting, focus movement, sending and local echo through the chat-mode
/// key handler.
#[test]
fn chat_keys_drive_the_session() {
    let nickname = "alice".to_string();
    let mut app = App::new();
    for c in "hi there".chars() {
        let r = handle_chat_key(&mut app, key(Key::Char(c)), &nickname);
        assert!(r.is_none());
    }
    let sent = handle_chat_key(&mut app, key(Key::Enter), &nickname);
    let bytes = sent.expect("enter on text broadcasts it");
    assert!(app.input.is_empty());
    assert_eq!(app.cursor_pos, 0);
    assert!(
        matches!(app.messages.last().unwrap(), ChatLine::Chat { nickname: n, text } if n == "alice" && text == "hi there")
    );

    let mut peer = App::new();
    let r = handle_network_event(&mut peer, NetEvent::Received(bytes), &"bob".to_string(), &PeerId::from_bytes([2u8; 32]));
    assert!(r.is_none());
    assert!(
        matches!(peer.messages.last().unwrap(), ChatLine::Chat { nickname: n, text } if n == "alice" && text == "hi there")
    );

    let r = handle_chat_key(&mut app, key(Key::Esc), &nickname);
    assert!(r.is_none());
    assert!(app.should_quit);
}

/// The /help and /send commands, and decode failures being dropped.
#[test]
fn commands_and_bad_payloads() {
    let nickname = "alice".to_string();
    let mut app = App::new();
    for c in "/help".chars() {
        handle_chat_key(&mut app, key(Key::Char(c)), &nickname);
    }
    handle_chat_key(&mut app, key(Key::Enter), &nickname);
    assert_eq!(app.messages.len(), 18);
    assert!(matches!(app.messages[0], ChatLine::System(_)));

    for c in "/send".chars() {
        handle_chat_key(&mut app, key(Key::Char(c)), &nickname);
    }
    handle_chat_key(&mut app, key(Key::Enter), &nickname);
    assert!(matches!(app.mode, AppMode::FilePicker));
    app.close_file_picker();

    let before = app.messages.len();
    handle_network_event(
        &mut app,
        NetEvent::Received(vec![0xffu8, 0x00, 0x01]),
        &nickname,
        &PeerId::from_bytes([1u8; 32]),
    );
    assert_eq!(app.messages.len(), before);
    assert!(!app.should_quit);

    handle_network_event(&mut app, NetEvent::Closed, &nickname, &PeerId::from_bytes([1u8; 32]));
    assert!(app.should_quit);
}
