use piper_chat::ids::ContentHash;
use piper_chat::ids::PeerId;
use piper_chat::transfer::format_file_size;
use piper_chat::transfer::FileOffer;
use piper_chat::transfer::TransferManager;
use piper_chat::transfer::TransferState;

fn test_hash() -> ContentHash {
    ContentHash::from_bytes([42u8; 32])
}

fn test_offer(nickname: &str) -> FileOffer {
    FileOffer {
        sender_nickname: nickname.to_string(),
        sender_id: PeerId::from_bytes([1u8; 32]),
        filename: "test.txt".to_string(),
        size: 1024,
        hash: test_hash(),
    }
}

#[test]
fn new_manager_is_empty() {
    let m = TransferManager::new();
    assert!(!m.has_entries());
    assert_eq!(m.selected_index, 0);
    assert!(m.selected_entry().is_none());
}

#[test]
fn add_offer_and_sent() {
    let mut m = TransferManager::new();
    m.add_offer(test_offer("Alice"));
    assert!(m.has_entries());
    assert_eq!(m.entries.len(), 1);
    assert!(matches!(m.entries[0].state, TransferState::Pending));

    m.add_sent(test_offer("You"));
    assert_eq!(m.entries.len(), 2);
    assert!(matches!(m.entries[1].state, TransferState::Sharing));
}

#[test]
fn start_download_transitions_state() {
    let mut m = TransferManager::new();
    let hash = test_hash();
    m.add_offer(test_offer("Alice"));
    m.start_download(&hash);
    assert!(matches!(
        m.entries[0].state,
        TransferState::Downloading { bytes_received: 0, total_bytes: 1024 }
    ));
}

#[test]
fn update_progress() {
    let mut m = TransferManager::new();
    let hash = test_hash();
    m.add_offer(test_offer("Alice"));
    m.start_download(&hash);
    m.update_progress(&hash, 512, 1024);
    assert!(matches!(
        m.entries[0].state,
        TransferState::Downloading { bytes_received: 512, total_bytes: 1024 }
    ));
}

#[test]
fn complete_download() {
    let mut m = TransferManager::new();
    let hash = test_hash();
    m.add_offer(test_offer("Alice"));
    m.complete_download(&hash, "/tmp/test.txt".to_string());
    match &m.entries[0].state {
        TransferState::Complete(p) => assert_eq!(p, "/tmp/test.txt"),
        _ => panic!("expected Complete state"),
    }
}

#[test]
fn fail_download() {
    let mut m = TransferManager::new();
    let hash = test_hash();
    m.add_offer(test_offer("Alice"));
    m.fail_download(&hash, "network error".to_string());
    match &m.entries[0].state {
        TransferState::Failed(e) => assert_eq!(e, "network error"),
        _ => panic!("expected Failed state"),
    }
}

#[test]
fn select_next_and_prev() {
    let mut m = TransferManager::new();
    m.add_offer(test_offer("Alice"));
    let mut offer2 = test_offer("Bob");
    offer2.hash = ContentHash::from_bytes([99u8; 32]);
    m.add_offer(offer2);

    assert_eq!(m.selected_index, 0);
    m.select_next();
    assert_eq!(m.selected_index, 1);
    m.select_next();
    assert_eq!(m.selected_index, 0);
    m.select_prev();
    assert_eq!(m.selected_index, 1);
    m.select_prev();
    assert_eq!(m.selected_index, 0);
}

#[test]
fn select_on_empty_is_noop() {
    let mut m = TransferManager::new();
    m.select_next();
    assert_eq!(m.selected_index, 0);
    m.select_prev();
    assert_eq!(m.selected_index, 0);
}

#[test]
fn format_file_size_units() {
    assert_eq!(format_file_size(0), "0 B");
    assert_eq!(format_file_size(512), "512 B");
    assert_eq!(format_file_size(1024), "1.0 KB");
    assert_eq!(format_file_size(1536), "1.5 KB");
    assert_eq!(format_file_size(1048576), "1.0 MB");
    assert_eq!(format_file_size(1073741824), "1.0 GB");
}

#[test]
fn format_file_size_rounds_up_to_next_unit_step() {
    assert_eq!(format_file_size(1023), "1023 B");
    assert_eq!(format_file_size(1048575), "1024.0 KB");
    assert_eq!(format_file_size(1024 + 512), "1.5 KB");
}

#[test]
fn adds_keep_call_order_without_dedup() {
    let mut m = TransferManager::new();
    m.add_offer(test_offer("Alice"));
    m.add_offer(test_offer("Alice"));
    m.add_sent(test_offer("You"));
    assert_eq!(m.entries.len(), 3);
    assert_eq!(m.entries[0].offer.sender_nickname, "Alice");
    assert!(matches!(m.entries[0].state, TransferState::Pending));
    assert!(matches!(m.entries[1].state, TransferState::Pending));
    assert!(matches!(m.entries[2].state, TransferState::Sharing));
    assert_eq!(m.entries[2].offer.sender_nickname, "You");
}

#[test]
fn start_download_unknown_hash_is_noop() {
    let mut m = TransferManager::new();
    m.add_offer(test_offer("Alice"));
    let unknown = ContentHash::from_bytes([7u8; 32]);
    m.start_download(&unknown);
    assert_eq!(m.entries.len(), 1);
    assert!(matches!(m.entries[0].state, TransferState::Pending));
    assert_eq!(m.selected_index, 0);
}

#[test]
fn start_download_already_downloading_keeps_progress() {
    let mut m = TransferManager::new();
    let hash = test_hash();
    m.add_offer(test_offer("Alice"));
    m.start_download(&hash);
    m.update_progress(&hash, 512, 1024);
    m.start_download(&hash);
    assert!(matches!(
        m.entries[0].state,
        TransferState::Downloading { bytes_received: 512, total_bytes: 1024 }
    ));
}

#[test]
fn later_progress_overwrites_earlier() {
    let mut m = TransferManager::new();
    let hash = test_hash();
    m.add_offer(test_offer("Alice"));
    m.update_progress(&hash, 100, 1024);
    m.update_progress(&hash, 700, 1024);
    assert!(matches!(
        m.entries[0].state,
        TransferState::Downloading { bytes_received: 700, total_bytes: 1024 }
    ));
}

#[test]
fn progress_after_completion_overwrites_back() {
    let mut m = TransferManager::new();
    let hash = test_hash();
    m.add_offer(test_offer("Alice"));
    m.complete_download(&hash, "/tmp/test.txt".to_string());
    assert!(matches!(m.entries[0].state, TransferState::Complete(_)));
    m.update_progress(&hash, 10, 1024);
    assert!(matches!(
        m.entries[0].state,
        TransferState::Downloading { bytes_received: 10, total_bytes: 1024 }
    ));
}

#[test]
fn select_next_cycles_back_after_entry_count_steps() {
    let mut m = TransferManager::new();
    for b in [1u8, 2, 3] {
        let mut offer = test_offer("Alice");
        offer.hash = ContentHash::from_bytes([b; 32]);
        m.add_offer(offer);
    }
    m.select_next();
    let start = m.selected_index;
    for _ in 0..3 {
        m.select_next();
    }
    assert_eq!(m.selected_index, start);
}

#[test]
fn transitions_hit_first_matching_entry_only() {
    let mut m = TransferManager::new();
    let hash = test_hash();
    m.add_offer(test_offer("Alice"));
    m.add_offer(test_offer("Bob"));
    m.fail_download(&hash, "boom".to_string());
    assert!(matches!(m.entries[0].state, TransferState::Failed(_)));
    assert!(matches!(m.entries[1].state, TransferState::Pending));
}
