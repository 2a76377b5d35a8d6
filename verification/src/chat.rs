//! Chat session state: the message log, the input line, the peer registry,
//! and which pane has keyboard focus.

use vstd::prelude::*;
use crate::conn::ConnType;
use crate::conn::PeerInfo;
use crate::ids::bytes_lt;
use crate::ids::lemma_bytes_lt_total;
use crate::ids::lemma_bytes_lt_trans;
use crate::ids::PeerId;
use crate::theme::ThemeMode;
use crate::transfer::TransferManager;

verus! {

/// Which UI element currently has keyboard focus.
#[derive(Debug, Clone, Copy, PartialEq, Eq, Structural)]
pub enum AppMode {
    /// Normal chat input mode.
    Chat,
    /// The modal file picker overlay is open.
    FilePicker,
    /// The file share pane has focus.
    FilePane,
}

/// The outcome of one key press inside the modal file picker, as the
/// surrounding binary reports it back to the loop.
#[derive(Debug)]
pub enum FilePickerResult {
    /// The user selected a file at this path.
    Selected(String),
    /// The user cancelled the picker.
    Cancelled,
    /// Still browsing; nothing chosen yet.
    Browsing,
}

/// A single line in the chat message log.
#[derive(Debug)]
pub enum ChatLine {
    /// System notification.
    System(String),
    /// The room's shareable ticket string, displayed prominently.
    Ticket(String),
    /// A chat message from a peer, with their display name.
    Chat { nickname: String, text: String },
}

/// Peers keyed by id, kept in ascending id order so the peer list renders
/// deterministically.
#[derive(Debug)]
pub struct PeerMap {
    entries: Vec<(PeerId, PeerInfo)>,
}

impl View for PeerMap {
    type V = Seq<(PeerId, PeerInfo)>;

    closed spec fn view(&self) -> Seq<(PeerId, PeerInfo)> {
        self.entries@
    }
}

/// Keys strictly ascending: sorted and without duplicates.
pub open spec fn peers_wf(s: Seq<(PeerId, PeerInfo)>) -> bool {
    forall|i: int| 0 <= i < s.len() - 1 ==> bytes_lt((#[trigger] s[i]).0@, s[i + 1].0@)
}

/// The first index whose key is the id, or the length when absent.
pub open spec fn find_peer(s: Seq<(PeerId, PeerInfo)>, id: Seq<u8>) -> int
    decreases s.len(),
{
    if s.len() == 0 {
        0
    } else if s[0].0@ == id {
        0
    } else {
        1 + find_peer(s.drop_first(), id)
    }
}

/// The map after inserting a peer: an existing entry for the id is
/// replaced, a new id takes its place in key order.
pub open spec fn insert_peer(s: Seq<(PeerId, PeerInfo)>, id: PeerId, info: PeerInfo) -> Seq<
    (PeerId, PeerInfo),
>
    decreases s.len(),
{
    if s.len() == 0 {
        seq![(id, info)]
    } else if bytes_lt(id@, s[0].0@) {
        seq![(id, info)] + s
    } else if id@ == s[0].0@ {
        seq![(id, info)] + s.drop_first()
    } else {
        seq![s[0]] + insert_peer(s.drop_first(), id, info)
    }
}

/// The map after removing a peer; absent ids change nothing.
pub open spec fn remove_peer(s: Seq<(PeerId, PeerInfo)>, id: Seq<u8>) -> Seq<(PeerId, PeerInfo)> {
    let i = find_peer(s, id);
    if i == s.len() {
        s
    } else {
        s.remove(i)
    }
}

/// `find_peer` lands on the first match, and past the end only when
/// nothing matches.
pub proof fn lemma_find_peer(s: Seq<(PeerId, PeerInfo)>, id: Seq<u8>)
    ensures
        0 <= find_peer(s, id) <= s.len(),
        find_peer(s, id) < s.len() ==> s[find_peer(s, id)].0@ == id,
        forall|j: int| 0 <= j < find_peer(s, id) ==> (#[trigger] s[j]).0@ != id,
    decreases s.len(),
{
    if s.len() > 0 && s[0].0@ != id {
        lemma_find_peer(s.drop_first(), id);
        assert forall|j: int| 0 <= j < find_peer(s, id) implies (#[trigger] s[j]).0@ != id by {
            if j > 0 {
                assert(s.drop_first()[j - 1] == s[j]);
            }
        }
    }
}

/// Inserting keeps the keys strictly ascending.
pub proof fn lemma_insert_peer_wf(s: Seq<(PeerId, PeerInfo)>, id: PeerId, info: PeerInfo)
    requires
        peers_wf(s),
    ensures
        peers_wf(insert_peer(s, id, info)),
    decreases s.len(),
{
    if s.len() == 0 {
    } else if bytes_lt(id@, s[0].0@) {
        let r = seq![(id, info)] + s;
        assert forall|i: int| 0 <= i < r.len() - 1 implies bytes_lt(
            (#[trigger] r[i]).0@,
            r[i + 1].0@,
        ) by {
            if i > 0 {
                assert(r[i] == s[i - 1] && r[i + 1] == s[i]);
            }
        }
    } else if id@ == s[0].0@ {
        let r = seq![(id, info)] + s.drop_first();
        assert forall|i: int| 0 <= i < r.len() - 1 implies bytes_lt(
            (#[trigger] r[i]).0@,
            r[i + 1].0@,
        ) by {
            if i == 0 {
                assert(r[1] == s[1]);
            } else {
                assert(r[i] == s[i] && r[i + 1] == s[i + 1]);
            }
        }
    } else {
        let tail = s.drop_first();
        assert(peers_wf(tail)) by {
            assert(forall|t: int| 0 <= t < tail.len() ==> #[trigger] tail[t] == s[t + 1]);
        }
        lemma_bytes_lt_total(id@, s[0].0@);
        lemma_insert_peer_wf(tail, id, info);
        let it = insert_peer(tail, id, info);
        let r = seq![s[0]] + it;
        assert forall|i: int| 0 <= i < r.len() - 1 implies bytes_lt(
            (#[trigger] r[i]).0@,
            r[i + 1].0@,
        ) by {
            if i == 0 {
                if tail.len() == 0 {
                    assert(r[1] == (id, info));
                } else if bytes_lt(id@, tail[0].0@) {
                    assert(r[1] == (id, info));
                } else if id@ == tail[0].0@ {
                    assert(r[1] == (id, info));
                    assert(bytes_lt(s[0].0@, s[1].0@) && s[1].0@ == id@);
                } else {
                    assert(r[1] == tail[0]);
                    assert(bytes_lt(s[0].0@, s[1].0@) && s[1] == tail[0]);
                }
            } else {
                assert(r[i] == it[i - 1] && r[i + 1] == it[i]);
            }
        }
    }
}

/// Removing keeps the keys strictly ascending.
pub proof fn lemma_remove_keeps_wf(s: Seq<(PeerId, PeerInfo)>, i: int)
    requires
        peers_wf(s),
        0 <= i < s.len(),
    ensures
        peers_wf(s.remove(i)),
{
    let r = s.remove(i);
    assert forall|k: int| 0 <= k < r.len() - 1 implies bytes_lt(
        (#[trigger] r[k]).0@,
        r[k + 1].0@,
    ) by {
        if k < i - 1 {
            assert(r[k] == s[k] && r[k + 1] == s[k + 1]);
        } else if k == i - 1 {
            assert(r[k] == s[k] && r[k + 1] == s[k + 2]);
            lemma_bytes_lt_trans(s[k].0@, s[k + 1].0@, s[k + 2].0@);
        } else {
            assert(r[k] == s[k + 1] && r[k + 1] == s[k + 2]);
        }
    }
}

/// Where the scan stops at an equal key, insertion replaces that entry.
proof fn lemma_insert_peer_replace(s: Seq<(PeerId, PeerInfo)>, id: PeerId, info: PeerInfo, i: int)
    requires
        0 <= i < s.len(),
        forall|j: int| 0 <= j < i ==> bytes_lt((#[trigger] s[j]).0@, id@),
        s[i].0@ == id@,
        peers_wf(s),
    ensures
        insert_peer(s, id, info) == s.update(i, (id, info)),
    decreases i,
{
    if i == 0 {
        assert(!bytes_lt(id@, s[0].0@)) by {
            if bytes_lt(id@, s[0].0@) {
                lemma_bytes_lt_trans(id@, s[0].0@, id@);
            }
        }
        assert(insert_peer(s, id, info) =~= s.update(0, (id, info)));
    } else {
        assert(bytes_lt(s[0].0@, id@));
        assert(!bytes_lt(id@, s[0].0@)) by {
            if bytes_lt(id@, s[0].0@) {
                lemma_bytes_lt_trans(s[0].0@, id@, s[0].0@);
            }
        }
        assert(id@ != s[0].0@) by {
            if id@ == s[0].0@ {
                assert(bytes_lt(s[0].0@, s[0].0@));
            }
        }
        let tail = s.drop_first();
        assert(peers_wf(tail) && (forall|j: int|
            0 <= j < i - 1 ==> bytes_lt((#[trigger] tail[j]).0@, id@)) && tail[i - 1].0@ == id@)
            by {
            assert(forall|t: int| 0 <= t < tail.len() ==> #[trigger] tail[t] == s[t + 1]);
        }
        lemma_insert_peer_replace(tail, id, info, i - 1);
        assert(insert_peer(s, id, info) =~= s.update(i, (id, info)));
    }
}

/// Where the scan stops at a strictly greater key (or the end), insertion
/// places the entry there.
proof fn lemma_insert_peer_at(s: Seq<(PeerId, PeerInfo)>, id: PeerId, info: PeerInfo, i: int)
    requires
        0 <= i <= s.len(),
        forall|j: int| 0 <= j < i ==> bytes_lt((#[trigger] s[j]).0@, id@),
        i < s.len() ==> bytes_lt(id@, s[i].0@),
        peers_wf(s),
    ensures
        insert_peer(s, id, info) == s.insert(i, (id, info)),
    decreases i,
{
    if s.len() == 0 {
        assert(insert_peer(s, id, info) =~= s.insert(0, (id, info)));
    } else if i == 0 {
        assert(insert_peer(s, id, info) =~= s.insert(0, (id, info)));
    } else {
        assert(bytes_lt(s[0].0@, id@));
        assert(!bytes_lt(id@, s[0].0@)) by {
            if bytes_lt(id@, s[0].0@) {
                lemma_bytes_lt_trans(s[0].0@, id@, s[0].0@);
            }
        }
        assert(id@ != s[0].0@) by {
            if id@ == s[0].0@ {
                assert(bytes_lt(s[0].0@, s[0].0@));
            }
        }
        let tail = s.drop_first();
        assert(peers_wf(tail) && (forall|j: int|
            0 <= j < i - 1 ==> bytes_lt((#[trigger] tail[j]).0@, id@)) && (i - 1 < tail.len()
            ==> bytes_lt(id@, tail[i - 1].0@))) by {
            assert(forall|t: int| 0 <= t < tail.len() ==> #[trigger] tail[t] == s[t + 1]);
        }
        lemma_insert_peer_at(tail, id, info, i - 1);
        assert(insert_peer(s, id, info) =~= s.insert(i, (id, info)));
    }
}

impl PeerMap {
    /// The map's invariant.
    pub open spec fn wf(&self) -> bool {
        peers_wf(self@)
    }

    /// An empty peer map.
    pub fn new() -> (r: Self)
        ensures
            r@.len() == 0,
            r.wf(),
    {
        PeerMap { entries: Vec::new() }
    }

    /// How many peers are known.
    pub fn len(&self) -> (r: usize)
        ensures
            r == self@.len(),
    {
        self.entries.len()
    }

    /// Whether no peer is known.
    pub fn is_empty(&self) -> (r: bool)
        ensures
            r == (self@.len() == 0),
    {
        self.entries.len() == 0
    }

    /// The key at a position.
    pub fn key_at(&self, i: usize) -> (r: PeerId)
        requires
            i < self@.len(),
        ensures
            r == self@[i as int].0,
    {
        self.entries[i].0
    }

    /// The display info at a position.
    pub fn info_at(&self, i: usize) -> (r: &PeerInfo)
        requires
            i < self@.len(),
        ensures
            *r == self@[i as int].1,
    {
        &self.entries[i].1
    }

    /// The display info recorded for an id, if the peer is known.
    pub fn get(&self, id: &PeerId) -> (r: Option<&PeerInfo>)
        ensures
            ({
                let i = find_peer(self@, id@);
                match r {
                    Some(info) => i < self@.len() && *info == self@[i].1,
                    None => i == self@.len(),
                }
            }),
    {
        let ghost s = self@;
        let mut i: usize = 0;
        while i < self.entries.len()
            invariant
                i <= s.len(),
                s == self@,
                forall|j: int| 0 <= j < i ==> (#[trigger] s[j]).0@ != id@,
            decreases s.len() - i,
        {
            if self.entries[i].0 == *id {
                proof {
                    lemma_find_peer_stop(s, id@, i as int);
                }
                return Some(&self.entries[i].1);
            }
            i += 1;
        }
        proof {
            lemma_find_peer_stop(s, id@, s.len() as int);
        }
        None
    }

    /// Insert or replace a peer's entry, keeping key order.
    pub fn insert(&mut self, id: PeerId, info: PeerInfo)
        requires
            old(self).wf(),
        ensures
            final(self).wf(),
            final(self)@ == insert_peer(old(self)@, id, info),
    {
        let ghost s = self@;
        let mut i: usize = 0;
        while i < self.entries.len() && self.entries[i].0.lt(&id)
            invariant
                i <= s.len(),
                self == old(self),
                s == self@,
                forall|j: int| 0 <= j < i ==> bytes_lt((#[trigger] s[j]).0@, id@),
            decreases s.len() - i,
        {
            i += 1;
        }
        if i < self.entries.len() && self.entries[i].0 == id {
            proof {
                lemma_insert_peer_replace(s, id, info, i as int);
            }
            self.entries.remove(i);
            self.entries.insert(i, (id, info));
            proof {
                assert(self@ =~= s.update(i as int, (id, info)));
                lemma_insert_peer_wf(s, id, info);
            }
        } else {
            proof {
                if i < s.len() {
                    lemma_bytes_lt_total(id@, s[i as int].0@);
                }
                lemma_insert_peer_at(s, id, info, i as int);
            }
            self.entries.insert(i, (id, info));
            proof {
                assert(self@ =~= s.insert(i as int, (id, info)));
                lemma_insert_peer_wf(s, id, info);
            }
        }
    }

    /// Remove a peer's entry, returning its display info; absent ids
    /// change nothing.
    pub fn remove(&mut self, id: &PeerId) -> (r: Option<PeerInfo>)
        requires
            old(self).wf(),
        ensures
            final(self).wf(),
            final(self)@ == remove_peer(old(self)@, id@),
            ({
                let i = find_peer(old(self)@, id@);
                match r {
                    Some(info) => i < old(self)@.len() && info == old(self)@[i].1,
                    None => i == old(self)@.len(),
                }
            }),
    {
        let ghost s = self@;
        let mut i: usize = 0;
        while i < self.entries.len()
            invariant
                old(self).wf(),
                i <= s.len(),
                self == old(self),
                s == self@,
                forall|j: int| 0 <= j < i ==> (#[trigger] s[j]).0@ != id@,
            decreases s.len() - i,
        {
            if self.entries[i].0 == *id {
                proof {
                    lemma_find_peer_stop(s, id@, i as int);
                    lemma_remove_keeps_wf(s, i as int);
                }
                let e = self.entries.remove(i);
                return Some(e.1);
            }
            i += 1;
        }
        proof {
            lemma_find_peer_stop(s, id@, s.len() as int);
        }
        None
    }

    /// Replace the connection type at a position, leaving the key and name
    /// as they were.
    pub fn set_conn_type_at(&mut self, i: usize, ct: ConnType)
        requires
            old(self).wf(),
            i < old(self)@.len(),
        ensures
            final(self).wf(),
            final(self)@.len() == old(self)@.len(),
            final(self)@[i as int].0 == old(self)@[i as int].0,
            final(self)@[i as int].1.name == old(self)@[i as int].1.name,
            final(self)@[i as int].1.conn_type == ct,
            forall|j: int| 0 <= j < old(self)@.len() && j != i ==> final(self)@[j] == old(self)@[j],
    {
        let ghost s = self@;
        let e = self.entries.remove(i);
        self.entries.insert(i, (e.0, PeerInfo { name: e.1.name, conn_type: ct }));
        proof {
            assert(self@ =~= s.update(
                i as int,
                (s[i as int].0, PeerInfo { name: s[i as int].1.name, conn_type: ct }),
            ));
            assert forall|k: int| 0 <= k < self@.len() - 1 implies bytes_lt(
                (#[trigger] self@[k]).0@,
                self@[k + 1].0@,
            ) by {
                assert(self@[k].0 == s[k].0 && self@[k + 1].0 == s[k + 1].0);
            }
        }
    }
}

/// Where a scan stopped is where `find_peer` lands.
proof fn lemma_find_peer_stop(s: Seq<(PeerId, PeerInfo)>, id: Seq<u8>, i: int)
    requires
        0 <= i <= s.len(),
        forall|j: int| 0 <= j < i ==> (#[trigger] s[j]).0@ != id,
        i < s.len() ==> s[i].0@ == id,
    ensures
        find_peer(s, id) == i,
    decreases i, s.len(),
{
    if s.len() == 0 {
    } else if i == 0 {
    } else {
        let tail = s.drop_first();
        assert((forall|j: int| 0 <= j < i - 1 ==> (#[trigger] tail[j]).0@ != id) && (i - 1
            < tail.len() ==> tail[i - 1].0@ == id)) by {
            assert(forall|t: int| 0 <= t < tail.len() ==> #[trigger] tail[t] == s[t + 1]);
        }
        lemma_find_peer_stop(tail, id, i - 1);
    }
}

/// The main application state for a chat session.
#[derive(Debug)]
pub struct App {
    /// All chat messages and system notifications, in order.
    pub messages: Vec<ChatLine>,
    /// The text being typed, not yet sent.
    pub input: Vec<char>,
    /// Cursor position within `input`, in characters.
    pub cursor_pos: usize,
    /// Set when the user quits or the network stream closes.
    pub should_quit: bool,
    /// Connected peers keyed by id.
    pub peers: PeerMap,
    /// Which UI element has keyboard focus.
    pub mode: AppMode,
    /// All file transfer entries, sent and received.
    pub transfers: TransferManager,
    /// The active color palette.
    pub theme: ThemeMode,
}

impl App {
    /// The session invariant: the peer map is ordered, the transfer cursor
    /// is in range, and the input cursor is inside the input line.
    pub open spec fn wf(&self) -> bool {
        &&& self.peers.wf()
        &&& self.transfers.cursor_ok()
        &&& self.cursor_pos <= self.input@.len()
    }

    /// A fresh, empty session in chat mode with the dark palette.
    pub fn new() -> (r: Self)
        ensures
            r.wf(),
            r.messages@.len() == 0,
            r.input@.len() == 0,
            r.cursor_pos == 0,
            !r.should_quit,
            r.peers@.len() == 0,
            r.mode is Chat,
            r.transfers.entries@.len() == 0,
            r.transfers.selected_index == 0,
            r.theme is Dark,
    {
        App {
            messages: Vec::new(),
            input: Vec::new(),
            cursor_pos: 0,
            should_quit: false,
            peers: PeerMap::new(),
            mode: AppMode::Chat,
            transfers: TransferManager::new(),
            theme: ThemeMode::Dark,
        }
    }

    /// Give the modal file picker keyboard focus. The surrounding binary
    /// owns the picker widget itself and returns focus if it cannot open.
    pub fn open_file_picker(&mut self)
        ensures
            *final(self) == (App { mode: AppMode::FilePicker, ..*old(self) }),
    {
        self.mode = AppMode::FilePicker;
    }

    /// Close the file picker and return focus to the chat input.
    pub fn close_file_picker(&mut self)
        ensures
            *final(self) == (App { mode: AppMode::Chat, ..*old(self) }),
    {
        self.mode = AppMode::Chat;
    }

    /// Move focus to the file share pane.
    pub fn focus_file_pane(&mut self)
        ensures
            *final(self) == (App { mode: AppMode::FilePane, ..*old(self) }),
    {
        self.mode = AppMode::FilePane;
    }

    /// Return focus to the chat input.
    pub fn focus_chat(&mut self)
        ensures
            *final(self) == (App { mode: AppMode::Chat, ..*old(self) }),
    {
        self.mode = AppMode::Chat;
    }

    /// Append a system notification to the message log.
    pub fn system(&mut self, msg: String)
        ensures
            *final(self) == (App {
                messages: final(self).messages,
                ..*old(self)
            }),
            final(self).messages@ == old(self).messages@.push(ChatLine::System(msg)),
    {
        self.messages.push(ChatLine::System(msg));
    }

    /// Append the room's ticket line to the message log.
    pub fn ticket(&mut self, ticket: String)
        ensures
            *final(self) == (App {
                messages: final(self).messages,
                ..*old(self)
            }),
            final(self).messages@ == old(self).messages@.push(ChatLine::Ticket(ticket)),
    {
        self.messages.push(ChatLine::Ticket(ticket));
    }

    /// Append a chat message to the message log.
    pub fn chat(&mut self, nickname: String, text: String)
        ensures
            *final(self) == (App {
                messages: final(self).messages,
                ..*old(self)
            }),
            final(self).messages@ == old(self).messages@.push(
                ChatLine::Chat { nickname, text },
            ),
    {
        self.messages.push(ChatLine::Chat { nickname, text });
    }
}

} // verus!
