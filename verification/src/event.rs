//! Decision logic of the main event loop.
//!
//! The loop outside races four event sources — keyboard, network, worker
//! reports, and the redraw tick — and hands whichever fired to one of the
//! handlers here, which mutate the session state and hand back at most one
//! action to perform: bytes to broadcast, a download to start, or a path
//! to reveal. Malformed network payloads are dropped silently; only an
//! explicit quit or the stream closing ends the session.

use vstd::prelude::*;
use crate::chat::insert_peer;
use crate::chat::remove_peer;
use crate::chat::App;
use crate::chat::AppMode;
use crate::chat::ChatLine;
use crate::chat::find_peer;
use crate::codec::decode_message;
use crate::codec::encode_message;
use crate::codec::msg_parse;
use crate::codec::msg_wire;
use crate::codec::Message;
use crate::codec::MessageView;
use crate::conn::ConnTracker;
use crate::conn::ConnType;
use crate::conn::PeerInfo;
use crate::ids::ContentHash;
use crate::ids::PeerId;
use crate::keys::Key;
use crate::keys::KeyPress;
use crate::strutil::ascii_view;
use crate::strutil::chars_to_string;
use crate::strutil::chars_eq_str;
use crate::strutil::hex_bytes;
use crate::strutil::trim_spec;
use crate::strutil::trimmed_chars;
use crate::transfer::file_size_text;
use crate::transfer::find_hash;
use crate::transfer::format_file_size;
use crate::transfer::progress_applied;
use crate::transfer::set_state;
use crate::transfer::FileOffer;
use crate::transfer::TransferEvent;
use crate::transfer::TransferState;
use crate::welcome::handle_text_input;
use crate::welcome::text_input_spec;
use vstd::string::StringExecFns;

verus! {

/// What the gossip stream delivered: a broadcast payload, membership
/// changes, a dropped-messages warning, the stream closing, or a stream
/// error.
#[derive(Debug)]
pub enum NetEvent {
    Received(Vec<u8>),
    NeighborUp(PeerId),
    NeighborDown(PeerId),
    Lagged,
    Closed,
    Failure(String),
}

/// What the file pane asks the loop to do.
#[derive(Debug)]
pub enum PaneAction {
    /// Nothing to do.
    Idle,
    /// Spawn a download worker for this offer.
    StartDownload(FileOffer),
    /// Reveal this downloaded file in the file manager.
    RevealPath(String),
}

impl FileOffer {
    /// A copy of the offer, field for field; the copy a spawned worker
    /// takes with it.
    pub fn duplicate(&self) -> (r: Self)
        ensures
            r == *self,
    {
        FileOffer {
            sender_nickname: self.sender_nickname.clone(),
            sender_id: self.sender_id,
            filename: self.filename.clone(),
            size: self.size,
            hash: self.hash,
        }
    }
}

/// The text of one help line.
pub open spec fn help_text(i: int) -> Seq<char> {
    if i == 0 {
        "── Commands ──────────────────────────────"@
    } else if i == 1 {
        "  /help        Show this help"@
    } else if i == 2 {
        "  /send        Open file picker to share a file"@
    } else if i == 3 {
        "── Keys (chat) ───────────────────────────"@
    } else if i == 4 {
        "  Enter        Send message"@
    } else if i == 5 {
        "  Ctrl+F       Open file picker"@
    } else if i == 6 {
        "  Tab          Focus file pane (when visible)"@
    } else if i == 7 {
        "  Esc          Quit"@
    } else if i == 8 {
        "── Keys (file pane) ──────────────────────"@
    } else if i == 9 {
        "  Up/Down      Select file"@
    } else if i == 10 {
        "  Enter        Download selected / open folder"@
    } else if i == 11 {
        "  Tab/Esc      Return to chat"@
    } else if i == 12 {
        "── Keys (file picker) ────────────────────"@
    } else if i == 13 {
        "  Up/Down      Navigate files"@
    } else if i == 14 {
        "  Left/Right   Parent / enter directory"@
    } else if i == 15 {
        "  Enter        Select file to share"@
    } else if i == 16 {
        "  Esc          Cancel"@
    } else {
        "──────────────────────────────────────────"@
    }
}

/// Append the command and key reference to the message log.
pub fn show_help(app: &mut App)
    ensures
        *final(app) == (App { messages: final(app).messages, ..*old(app) }),
        final(app).messages@.len() == old(app).messages@.len() + 18,
        forall|i: int|
            0 <= i < 18 ==> ((#[trigger] final(app).messages@[old(app).messages@.len() + i])
                matches ChatLine::System(t) && t@ == help_text(i)),
        forall|i: int|
            0 <= i < old(app).messages@.len() ==> final(app).messages@[i] == old(app).messages@[i],
{
    app.system("── Commands ──────────────────────────────".to_owned());
    app.system("  /help        Show this help".to_owned());
    app.system("  /send        Open file picker to share a file".to_owned());
    app.system("── Keys (chat) ───────────────────────────".to_owned());
    app.system("  Enter        Send message".to_owned());
    app.system("  Ctrl+F       Open file picker".to_owned());
    app.system("  Tab          Focus file pane (when visible)".to_owned());
    app.system("  Esc          Quit".to_owned());
    app.system("── Keys (file pane) ──────────────────────".to_owned());
    app.system("  Up/Down      Select file".to_owned());
    app.system("  Enter        Download selected / open folder".to_owned());
    app.system("  Tab/Esc      Return to chat".to_owned());
    app.system("── Keys (file picker) ────────────────────".to_owned());
    app.system("  Up/Down      Navigate files".to_owned());
    app.system("  Left/Right   Parent / enter directory".to_owned());
    app.system("  Enter        Select file to share".to_owned());
    app.system("  Esc          Cancel".to_owned());
    app.system("──────────────────────────────────────────".to_owned());
}

/// Handle a key press while the chat input has focus. Escape quits; Tab
/// moves focus to the file pane when it is visible; Ctrl+F or the /send
/// command opens the file picker; /help prints the reference; Enter on
/// other text broadcasts it as a chat message and echoes it locally;
/// everything else edits the input line.
pub fn handle_chat_key(app: &mut App, key: KeyPress, nickname: &String) -> (r: Option<Vec<u8>>)
    requires
        old(app).wf(),
    ensures
        final(app).wf(),
        match key.code {
            Key::Esc => *final(app) == (App { should_quit: true, ..*old(app) }) && r is None,
            Key::Tab => *final(app) == (App {
                mode: if old(app).transfers.entries@.len() > 0 {
                    AppMode::FilePane
                } else {
                    old(app).mode
                },
                ..*old(app)
            }) && r is None,
            Key::Char('f') if key.ctrl => *final(app) == (App {
                mode: AppMode::FilePicker,
                ..*old(app)
            }) && r is None,
            Key::Enter => {
                let text = old(app).input@;
                &&& final(app).input@.len() == 0
                &&& final(app).cursor_pos == 0
                &&& (trim_spec(text) == "/help"@ ==> final(app).messages@.len() == old(app).messages@.len() + 18 && final(app).mode == old(app).mode && r is None)
                &&& (trim_spec(text) == "/send"@ ==> final(app).mode is FilePicker && final(app).messages@ == old(app).messages@ && r is None)
                &&& (trim_spec(text) != "/help"@ && trim_spec(text) != "/send"@ && text.len() > 0
                    ==> (r matches Some(b) && b@ == msg_wire(
                    MessageView::Chat { nickname: nickname@, text },
                )) && final(app).messages@.len() == old(app).messages@.len() + 1 && (final(app).messages@.last() matches ChatLine::Chat { nickname: n, text: t } && n@
                    == nickname@ && t@ == text) && final(app).mode == old(app).mode)
                &&& (text.len() == 0 ==> *final(app) == (App {
                    input: final(app).input,
                    cursor_pos: 0,
                    ..*old(app)
                }) && r is None)
                &&& final(app).should_quit == old(app).should_quit
                &&& final(app).peers@ == old(app).peers@
                &&& final(app).transfers == old(app).transfers
            },
            _ => {
                &&& *final(app) == (App {
                    input: final(app).input,
                    cursor_pos: final(app).cursor_pos,
                    ..*old(app)
                })
                &&& (final(app).input@, final(app).cursor_pos as int) == text_input_spec(
                    old(app).input@,
                    old(app).cursor_pos as int,
                    key,
                )
                &&& r is None
            },
        },
{
    match key.code {
        Key::Esc => {
            app.should_quit = true;
            None
        },
        Key::Tab => {
            if app.transfers.has_entries() {
                app.focus_file_pane();
            }
            None
        },
        Key::Char(c) => {
            if c == 'f' && key.ctrl {
                app.open_file_picker();
                None
            } else {
                let mut cur = app.cursor_pos;
                handle_text_input(&mut app.input, &mut cur, key);
                app.cursor_pos = cur;
                None
            }
        },
        Key::Enter => {
            let mut text: Vec<char> = Vec::new();
            core::mem::swap(&mut text, &mut app.input);
            app.cursor_pos = 0;
            proof {
                reveal_strlit("/help");
                reveal_strlit("/send");
                assert("/help"@[1] != "/send"@[1]);
            }
            let trimmed = trimmed_chars(&text);
            if chars_eq_str(&trimmed, "/help") {
                show_help(app);
                None
            } else if chars_eq_str(&trimmed, "/send") {
                app.open_file_picker();
                None
            } else if text.len() > 0 {
                let text_str = chars_to_string(&text);
                let msg = Message::Chat { nickname: nickname.clone(), text: text_str };
                let encoded = encode_message(&msg);
                match msg {
                    Message::Chat { nickname: n, text: t } => {
                        app.chat(n, t);
                    },
                    _ => {},
                }
                Some(encoded)
            } else {
                None
            }
        },
        _ => {
            let mut cur = app.cursor_pos;
            handle_text_input(&mut app.input, &mut cur, key);
            app.cursor_pos = cur;
            None
        },
    }
}

/// Handle a key press while the file pane has focus. Tab or Escape hand
/// focus back to the chat input; Up and Down move the selection; Enter on
/// a pending offer begins its download and asks the loop to spawn the
/// worker; Enter on a completed download asks the loop to reveal it.
pub fn handle_file_pane_key(app: &mut App, key: KeyPress) -> (r: PaneAction)
    requires
        old(app).wf(),
    ensures
        final(app).wf(),
        match key.code {
            Key::Tab | Key::Esc => *final(app) == (App { mode: AppMode::Chat, ..*old(app) }) && (
            r is Idle),
            Key::Up => {
                &&& *final(app) == (App { transfers: final(app).transfers, ..*old(app) })
                &&& final(app).transfers.entries@ == old(app).transfers.entries@
                &&& (old(app).transfers.entries@.len() > 0 ==> final(app).transfers.selected_index as int == (if old(app).transfers.selected_index == 0 {
                    old(app).transfers.entries@.len() - 1
                } else {
                    old(app).transfers.selected_index - 1
                }))
                &&& (old(app).transfers.entries@.len() == 0 ==> final(app).transfers.selected_index == old(app).transfers.selected_index)
                &&& (r is Idle)
            },
            Key::Down => {
                &&& *final(app) == (App { transfers: final(app).transfers, ..*old(app) })
                &&& final(app).transfers.entries@ == old(app).transfers.entries@
                &&& (old(app).transfers.entries@.len() > 0 ==> final(app).transfers.selected_index as int == (old(app).transfers.selected_index + 1) % (
                old(app).transfers.entries@.len() as int))
                &&& (old(app).transfers.entries@.len() == 0 ==> final(app).transfers.selected_index == old(app).transfers.selected_index)
                &&& (r is Idle)
            },
            Key::Enter => {
                let s = old(app).transfers.entries@;
                let sel = old(app).transfers.selected_index as int;
                if sel < s.len() {
                    match s[sel].state {
                        TransferState::Pending => {
                            &&& *final(app) == (App {
                                transfers: final(app).transfers,
                                ..*old(app)
                            })
                            &&& final(app).transfers.selected_index == old(app).transfers.selected_index
                            &&& ({
                                let i = find_hash(s, s[sel].offer.hash@, 0);
                                if i == s.len() || s[i].state is Downloading {
                                    final(app).transfers.entries@ == s
                                } else {
                                    final(app).transfers.entries@ == set_state(
                                        s,
                                        i,
                                        TransferState::Downloading {
                                            bytes_received: 0,
                                            total_bytes: s[i].offer.size,
                                        },
                                    )
                                }
                            })
                            &&& (r matches PaneAction::StartDownload(o) && o == s[sel].offer)
                        },
                        TransferState::Complete(path) => {
                            &&& *final(app) == *old(app)
                            &&& (r matches PaneAction::RevealPath(p) && p == path)
                        },
                        _ => *final(app) == *old(app) && (r is Idle),
                    }
                } else {
                    *final(app) == *old(app) && (r is Idle)
                }
            },
            _ => *final(app) == *old(app) && (r is Idle),
        },
{
    match key.code {
        Key::Tab | Key::Esc => {
            app.focus_chat();
            PaneAction::Idle
        },
        Key::Up => {
            app.transfers.select_prev();
            PaneAction::Idle
        },
        Key::Down => {
            app.transfers.select_next();
            PaneAction::Idle
        },
        Key::Enter => {
            let action = match app.transfers.selected_entry() {
                None => PaneAction::Idle,
                Some(entry) => match &entry.state {
                    TransferState::Pending => PaneAction::StartDownload(entry.offer.duplicate()),
                    TransferState::Complete(path) => PaneAction::RevealPath(path.clone()),
                    _ => PaneAction::Idle,
                },
            };
            match &action {
                PaneAction::StartDownload(offer) => {
                    let hash = offer.hash;
                    let ghost s0 = old(app).transfers.entries@;
                    app.transfers.start_download(&hash);
                    proof {
                        crate::transfer::lemma_find_hash(s0, hash@, 0);
                    }
                },
                _ => {},
            }
            action
        },
        _ => PaneAction::Idle,
    }
}

/// Handle one event from the gossip stream. A received payload is decoded
/// and dispatched; an undecodable payload is dropped without a trace. A
/// peer coming up is inserted under a placeholder name and answered with
/// this node's join announcement, which the caller broadcasts. A peer
/// going down is removed and seen off under its last known name. A lag
/// warning and a stream error each leave a notice; the stream closing
/// also ends the session.
pub fn handle_network_event(
    app: &mut App,
    ev: NetEvent,
    nickname: &String,
    our_id: &PeerId,
) -> (r: Option<Vec<u8>>)
    requires
        old(app).wf(),
    ensures
        final(app).wf(),
        match ev {
            NetEvent::Received(bytes) => {
                &&& r is None
                &&& match msg_parse(bytes@) {
                    None => *final(app) == *old(app),
                    Some(MessageView::Join { nickname: n, endpoint_id: eid }) => {
                        &&& *final(app) == (App {
                            messages: final(app).messages,
                            peers: final(app).peers,
                            ..*old(app)
                        })
                        &&& final(app).messages@.len() == old(app).messages@.len() + 1
                        &&& (final(app).messages@.last() matches ChatLine::System(t) && t@ == n
                            + " joined"@)
                        &&& (exists|pid: PeerId, info: PeerInfo|
                            pid@ == eid && info.name@ == n && info.conn_type is Unknown && final(app).peers@ == insert_peer(#[trigger] old(app).peers@, pid, info))
                    },
                    Some(MessageView::Chat { nickname: n, text: t }) => {
                        &&& *final(app) == (App { messages: final(app).messages, ..*old(app) })
                        &&& final(app).messages@.len() == old(app).messages@.len() + 1
                        &&& (final(app).messages@.last() matches ChatLine::Chat {
                            nickname: cn,
                            text: ct,
                        } && cn@ == n && ct@ == t)
                    },
                    Some(MessageView::FileOffer { nickname: n, endpoint_id: eid, filename: f, size, hash }) => {
                        &&& *final(app) == (App {
                            messages: final(app).messages,
                            transfers: final(app).transfers,
                            ..*old(app)
                        })
                        &&& final(app).transfers.selected_index == old(app).transfers.selected_index
                        &&& final(app).transfers.entries@.len() == old(app).transfers.entries@.len() + 1
                        &&& (forall|i: int|
                            0 <= i < old(app).transfers.entries@.len() ==> final(app).transfers.entries@[i] == #[trigger] old(app).transfers.entries@[i])
                        &&& ({
                            let e = final(app).transfers.entries@.last();
                            &&& e.state is Pending
                            &&& e.offer.sender_nickname@ == n
                            &&& e.offer.sender_id@ == eid
                            &&& e.offer.filename@ == f
                            &&& e.offer.size == size
                            &&& e.offer.hash@ == hash
                        })
                        &&& final(app).messages@.len() == old(app).messages@.len() + 1
                        &&& (final(app).messages@.last() matches ChatLine::System(t) && t@ == n
                            + " shared: "@ + f + " ("@ + file_size_text(size) + ")"@)
                    },
                }
            },
            NetEvent::NeighborUp(id) => {
                &&& *final(app) == (App {
                    messages: final(app).messages,
                    peers: final(app).peers,
                    ..*old(app)
                })
                &&& (exists|pid: PeerId, info: PeerInfo|
                    pid@ == id@ && info.name@ == ascii_view(hex_bytes(id@.take(5)))
                        && info.conn_type is Unknown && final(app).peers@ == insert_peer(
                        #[trigger] old(app).peers@,
                        pid,
                        info,
                    ))
                &&& final(app).messages@.len() == old(app).messages@.len() + 1
                &&& (final(app).messages@.last() matches ChatLine::System(t) && t@
                    == "peer connected: "@ + ascii_view(hex_bytes(id@.take(5))))
                &&& (r matches Some(b) && b@ == msg_wire(
                    MessageView::Join { nickname: nickname@, endpoint_id: our_id@ },
                ))
            },
            NetEvent::NeighborDown(id) => {
                &&& r is None
                &&& *final(app) == (App {
                    messages: final(app).messages,
                    peers: final(app).peers,
                    ..*old(app)
                })
                &&& final(app).peers@ == remove_peer(old(app).peers@, id@)
                &&& final(app).messages@.len() == old(app).messages@.len() + 1
                &&& ({
                    let i = find_peer(old(app).peers@, id@);
                    let name = if i < old(app).peers@.len() {
                        old(app).peers@[i].1.name@
                    } else {
                        ascii_view(hex_bytes(id@.take(5)))
                    };
                    final(app).messages@.last() matches ChatLine::System(t) && t@ == name
                        + " left"@
                })
            },
            NetEvent::Lagged => {
                &&& r is None
                &&& *final(app) == (App { messages: final(app).messages, ..*old(app) })
                &&& final(app).messages@.len() == old(app).messages@.len() + 1
                &&& (final(app).messages@.last() matches ChatLine::System(t) && t@
                    == "warning: gossip stream lagged"@)
            },
            NetEvent::Closed => {
                &&& r is None
                &&& *final(app) == (App {
                    messages: final(app).messages,
                    should_quit: true,
                    ..*old(app)
                })
                &&& final(app).messages@.len() == old(app).messages@.len() + 1
                &&& (final(app).messages@.last() matches ChatLine::System(t) && t@
                    == "gossip stream closed"@)
            },
            NetEvent::Failure(e) => {
                &&& r is None
                &&& *final(app) == (App { messages: final(app).messages, ..*old(app) })
                &&& final(app).messages@.len() == old(app).messages@.len() + 1
                &&& (final(app).messages@.last() matches ChatLine::System(t) && t@
                    == "gossip error: "@ + e@)
            },
        },
{
    match ev {
        NetEvent::Received(bytes) => {
            match decode_message(&bytes) {
                None => None,
                Some(Message::Join { nickname: n, endpoint_id }) => {
                    let notice = n.clone().concat(" joined");
                    app.system(notice);
                    app.peers.insert(endpoint_id, PeerInfo { name: n, conn_type: ConnType::Unknown });
                    None
                },
                Some(Message::Chat { nickname: n, text }) => {
                    app.chat(n, text);
                    None
                },
                Some(Message::FileOffer { nickname: n, endpoint_id, filename, size, hash }) => {
                    let notice = n.clone().concat(" shared: ").concat(filename.as_str()).concat(
                        " (",
                    ).concat(format_file_size(size).as_str()).concat(")");
                    let offer = FileOffer {
                        sender_nickname: n,
                        sender_id: endpoint_id,
                        filename,
                        size,
                        hash,
                    };
                    app.transfers.add_offer(offer);
                    app.system(notice);
                    None
                },
            }
        },
        NetEvent::NeighborUp(id) => {
            let short = id.fmt_short();
            let notice = "peer connected: ".to_owned().concat(short.as_str());
            app.system(notice);
            app.peers.insert(id, PeerInfo { name: short, conn_type: ConnType::Unknown });
            let join = Message::Join { nickname: nickname.clone(), endpoint_id: *our_id };
            Some(encode_message(&join))
        },
        NetEvent::NeighborDown(id) => {
            let removed = app.peers.remove(&id);
            let name = match removed {
                Some(info) => info.name,
                None => id.fmt_short(),
            };
            app.system(name.concat(" left"));
            None
        },
        NetEvent::Lagged => {
            app.system("warning: gossip stream lagged".to_owned());
            None
        },
        NetEvent::Closed => {
            app.system("gossip stream closed".to_owned());
            app.should_quit = true;
            None
        },
        NetEvent::Failure(e) => {
            app.system("gossip error: ".to_owned().concat(e.as_str()));
            None
        },
    }
}

/// Apply one worker report to the transfer list, with a notice on
/// completion and on failure.
pub fn apply_transfer_event(app: &mut App, ev: TransferEvent)
    requires
        old(app).wf(),
    ensures
        final(app).wf(),
        match ev {
            TransferEvent::Progress { hash, bytes_received, total_bytes } => {
                &&& *final(app) == (App { transfers: final(app).transfers, ..*old(app) })
                &&& final(app).transfers.selected_index == old(app).transfers.selected_index
                &&& final(app).transfers.entries@ == progress_applied(
                    old(app).transfers.entries@,
                    hash@,
                    bytes_received,
                    total_bytes,
                )
            },
            TransferEvent::Complete { hash, filename, path } => {
                &&& *final(app) == (App {
                    transfers: final(app).transfers,
                    messages: final(app).messages,
                    ..*old(app)
                })
                &&& final(app).transfers.selected_index == old(app).transfers.selected_index
                &&& ({
                    let s = old(app).transfers.entries@;
                    let i = find_hash(s, hash@, 0);
                    if i == s.len() {
                        final(app).transfers.entries@ == s
                    } else {
                        final(app).transfers.entries@ == set_state(
                            s,
                            i,
                            TransferState::Complete(path),
                        )
                    }
                })
                &&& final(app).messages@.len() == old(app).messages@.len() + 1
                &&& (final(app).messages@.last() matches ChatLine::System(t) && t@
                    == "download complete: "@ + filename@)
            },
            TransferEvent::Failed { hash, filename, error } => {
                &&& *final(app) == (App {
                    transfers: final(app).transfers,
                    messages: final(app).messages,
                    ..*old(app)
                })
                &&& final(app).transfers.selected_index == old(app).transfers.selected_index
                &&& ({
                    let s = old(app).transfers.entries@;
                    let i = find_hash(s, hash@, 0);
                    if i == s.len() {
                        final(app).transfers.entries@ == s
                    } else {
                        exists|e: String|
                            e@ == error@ && final(app).transfers.entries@ == set_state(
                                s,
                                i,
                                TransferState::Failed(e),
                            )
                    }
                })
                &&& final(app).messages@.len() == old(app).messages@.len() + 1
                &&& (final(app).messages@.last() matches ChatLine::System(t) && t@
                    == "download failed: "@ + filename@ + " — "@ + error@)
            },
        },
{
    match ev {
        TransferEvent::Progress { hash, bytes_received, total_bytes } => {
            let ghost s0 = app.transfers.entries@;
            app.transfers.update_progress(&hash, bytes_received, total_bytes);
            proof {
                crate::transfer::lemma_find_hash(s0, hash@, 0);
            }
        },
        TransferEvent::Complete { hash, filename, path } => {
            let ghost s0 = app.transfers.entries@;
            app.transfers.complete_download(&hash, path);
            proof {
                crate::transfer::lemma_find_hash(s0, hash@, 0);
            }
            app.system("download complete: ".to_owned().concat(filename.as_str()));
        },
        TransferEvent::Failed { hash, filename, error } => {
            let ghost s0 = app.transfers.entries@;
            app.transfers.fail_download(&hash, error.clone());
            proof {
                crate::transfer::lemma_find_hash(s0, hash@, 0);
            }
            app.system(
                "download failed: ".to_owned().concat(filename.as_str()).concat(" — ").concat(
                    error.as_str(),
                ),
            );
        },
    }
}

/// On each redraw tick, refresh every other peer's connection type from
/// the tracker; this node's own entry keeps what it had.
pub fn refresh_conn_types(app: &mut App, tracker: &ConnTracker, our_id: &PeerId)
    requires
        old(app).wf(),
    ensures
        final(app).wf(),
        *final(app) == (App { peers: final(app).peers, ..*old(app) }),
        final(app).peers@.len() == old(app).peers@.len(),
        forall|i: int|
            0 <= i < old(app).peers@.len() ==> {
                let o = #[trigger] old(app).peers@[i];
                let f = final(app).peers@[i];
                &&& f.0 == o.0
                &&& f.1.name == o.1.name
                &&& f.1.conn_type == (if o.0@ == our_id@ {
                    o.1.conn_type
                } else {
                    tracker.query_spec(o.0@)
                })
            },
{
    let mut peers = crate::chat::PeerMap::new();
    core::mem::swap(&mut peers, &mut app.peers);
    let ghost s0 = peers@;
    let n = peers.len();
    let mut i: usize = 0;
    while i < n
        invariant
            peers.wf(),
            i <= n,
            n == s0.len(),
            peers@.len() == s0.len(),
            forall|j: int|
                0 <= j < i ==> {
                    let o = #[trigger] s0[j];
                    let f = peers@[j];
                    &&& f.0 == o.0
                    &&& f.1.name == o.1.name
                    &&& f.1.conn_type == (if o.0@ == our_id@ {
                        o.1.conn_type
                    } else {
                        tracker.query_spec(o.0@)
                    })
                },
            forall|j: int| i <= j < s0.len() ==> #[trigger] peers@[j] == s0[j],
        decreases n - i,
    {
        let id = peers.key_at(i);
        if !(id == *our_id) {
            let ct = tracker.conn_type(&id);
            peers.set_conn_type_at(i, ct);
        }
        i += 1;
    }
    app.peers = peers;
}

/// The offer this node shares, paired with the announcement to broadcast:
/// locally the sender shows as `You`, on the wire as the nickname.
pub fn make_share_offer(
    nickname: &String,
    our_id: &PeerId,
    filename: String,
    size: u64,
    hash: ContentHash,
) -> (r: (FileOffer, Vec<u8>))
    ensures
        r.0.sender_nickname@ == "You"@,
        r.0.sender_id == *our_id,
        r.0.filename == filename,
        r.0.size == size,
        r.0.hash == hash,
        r.1@ == msg_wire(
            MessageView::FileOffer {
                nickname: nickname@,
                endpoint_id: our_id@,
                filename: filename@,
                size,
                hash: hash@,
            },
        ),
{
    let msg = Message::FileOffer {
        nickname: nickname.clone(),
        endpoint_id: *our_id,
        filename: filename.clone(),
        size,
        hash,
    };
    let encoded = encode_message(&msg);
    let offer = FileOffer {
        sender_nickname: "You".to_owned(),
        sender_id: *our_id,
        filename,
        size,
        hash,
    };
    (offer, encoded)
}

/// A worker's progress report for an offer: the received count with the
/// offer's size as the total.
pub fn progress_event(offer: &FileOffer, bytes_received: u64) -> (r: TransferEvent)
    ensures
        r == (TransferEvent::Progress {
            hash: offer.hash,
            bytes_received,
            total_bytes: offer.size,
        }),
{
    TransferEvent::Progress { hash: offer.hash, bytes_received, total_bytes: offer.size }
}

/// A worker's completion report: the offer's file was saved at `path`.
pub fn completion_event(offer: &FileOffer, path: String) -> (r: TransferEvent)
    ensures
        (r matches TransferEvent::Complete { hash, filename, path: p } && hash == offer.hash
            && filename@ == offer.filename@ && p == path),
{
    TransferEvent::Complete { hash: offer.hash, filename: offer.filename.clone(), path }
}

/// A worker's failure report: the stage that failed and its error text.
pub fn failure_event(offer: &FileOffer, stage: &str, detail: &String) -> (r: TransferEvent)
    ensures
        (r matches TransferEvent::Failed { hash, filename, error } && hash == offer.hash
            && filename@ == offer.filename@ && error@ == stage@ + detail@),
{
    TransferEvent::Failed {
        hash: offer.hash,
        filename: offer.filename.clone(),
        error: stage.to_owned().concat(detail.as_str()),
    }
}

} // verus!
