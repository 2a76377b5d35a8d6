//! File transfer state machine.
//!
//! Tracks every file offer, sent and received, together with its lifecycle
//! state, and the selection cursor for keyboard navigation. Entries are
//! appended and never removed; state transitions are keyed by content hash
//! and find the first entry with that hash; a hash no entry carries makes
//! the operation a silent no-op, because the report's sender cannot react
//! to an error. Progress, completion and failure reports overwrite the
//! current state unconditionally — last write wins, by design, because
//! stale reports may arrive out of band.

use vstd::prelude::*;
use vstd::arithmetic::div_mod::lemma_small_mod;
use crate::ids::ContentHash;
use crate::ids::PeerId;
use crate::strutil::ascii_to_string;
use crate::strutil::ascii_view;
use crate::strutil::dec_bytes;
use crate::strutil::lemma_dec_bytes_ascii;
use crate::strutil::push_dec_u64;

verus! {

/// A file offer broadcast over gossip: what a receiver needs in order to
/// decide whether to download and to fetch the content.
#[derive(Debug, Clone)]
pub struct FileOffer {
    /// Display name of the offering peer.
    pub sender_nickname: String,
    /// The peer to connect to for downloading the content.
    pub sender_id: PeerId,
    /// The original filename, for display and saving.
    pub filename: String,
    /// File size in bytes.
    pub size: u64,
    /// The content hash identifying the offered bytes.
    pub hash: ContentHash,
}

/// The lifecycle state of a single file transfer.
#[derive(Debug)]
pub enum TransferState {
    /// Offer received but download not yet started.
    Pending,
    /// Download in progress.
    Downloading { bytes_received: u64, total_bytes: u64 },
    /// Download completed; the file is available at this path.
    Complete(String),
    /// Download failed with an error message.
    Failed(String),
    /// This side is the sender; the file is being shared to peers.
    Sharing,
}

/// Events sent from background download work back to the event loop.
#[derive(Debug)]
pub enum TransferEvent {
    /// Periodic progress update.
    Progress { hash: ContentHash, bytes_received: u64, total_bytes: u64 },
    /// Download completed; the file was saved to `path`.
    Complete { hash: ContentHash, filename: String, path: String },
    /// Download failed with an error description.
    Failed { hash: ContentHash, filename: String, error: String },
}

/// A single entry: an offer paired with its state.
#[derive(Debug)]
pub struct TransferEntry {
    pub offer: FileOffer,
    pub state: TransferState,
}

/// The list of transfers and the selection cursor.
#[derive(Debug)]
pub struct TransferManager {
    pub entries: Vec<TransferEntry>,
    /// Index of the highlighted entry when the file pane has focus.
    pub selected_index: usize,
}

/// The first index at or after `from` whose entry carries the hash, or the
/// length when none does.
pub open spec fn find_hash(s: Seq<TransferEntry>, h: Seq<u8>, from: int) -> int
    decreases s.len() - from,
{
    if from < 0 || from >= s.len() {
        s.len() as int
    } else if s[from].offer.hash@ == h {
        from
    } else {
        find_hash(s, h, from + 1)
    }
}

/// The list with the state of the entry at `i` replaced.
pub open spec fn set_state(s: Seq<TransferEntry>, i: int, st: TransferState) -> Seq<
    TransferEntry,
> {
    s.update(i, TransferEntry { offer: s[i].offer, state: st })
}

/// The list after a progress report: the first entry with the hash moves to
/// `Downloading`, whatever its state was; no entry, no change.
pub open spec fn progress_applied(s: Seq<TransferEntry>, h: Seq<u8>, b: u64, t: u64) -> Seq<
    TransferEntry,
> {
    let i = find_hash(s, h, 0);
    if i == s.len() {
        s
    } else {
        set_state(s, i, TransferState::Downloading { bytes_received: b, total_bytes: t })
    }
}

/// `find_hash` lands on the first match: what it returns matches, nothing
/// before it does, and the length comes back only when nothing matches.
pub proof fn lemma_find_hash(s: Seq<TransferEntry>, h: Seq<u8>, from: int)
    requires
        0 <= from <= s.len(),
    ensures
        from <= find_hash(s, h, from) <= s.len(),
        find_hash(s, h, from) < s.len() ==> s[find_hash(s, h, from)].offer.hash@ == h,
        forall|j: int| from <= j < find_hash(s, h, from) ==> (#[trigger] s[j]).offer.hash@ != h,
    decreases s.len() - from,
{
    if from < s.len() && s[from].offer.hash@ != h {
        lemma_find_hash(s, h, from + 1);
    }
}

/// Scanning from the start is the same as scanning from any point that
/// nothing before it matches.
proof fn lemma_find_hash_prefix(s: Seq<TransferEntry>, h: Seq<u8>, i: int)
    requires
        0 <= i <= s.len(),
        forall|j: int| 0 <= j < i ==> (#[trigger] s[j]).offer.hash@ != h,
    ensures
        find_hash(s, h, 0) == find_hash(s, h, i),
    decreases i,
{
    if i > 0 {
        lemma_find_hash_prefix(s, h, i - 1);
    }
}

/// The scan sees only hashes, so replacing a state does not move it.
pub proof fn lemma_find_hash_set_state(s: Seq<TransferEntry>, i: int, st: TransferState, h: Seq<u8>)
    requires
        0 <= i < s.len(),
    ensures
        find_hash(set_state(s, i, st), h, 0) == find_hash(s, h, 0),
{
    lemma_find_hash_same_hashes(set_state(s, i, st), s, h, 0);
}

/// Two lists whose entries carry the same hashes scan alike.
proof fn lemma_find_hash_same_hashes(s1: Seq<TransferEntry>, s2: Seq<TransferEntry>, h: Seq<u8>, from: int)
    requires
        s1.len() == s2.len(),
        forall|j: int|
            0 <= j < s1.len() ==> (#[trigger] s1[j]).offer.hash@ == (#[trigger] s2[j]).offer.hash@,
    ensures
        find_hash(s1, h, from) == find_hash(s2, h, from),
    decreases s1.len() - from,
{
    if 0 <= from < s1.len() && s1[from].offer.hash@ != h {
        lemma_find_hash_same_hashes(s1, s2, h, from + 1);
    }
}

/// A later progress report for the same hash overwrites an earlier one:
/// after both, the entry holds the second report's byte counts.
pub proof fn lemma_progress_last_write_wins(s: Seq<TransferEntry>, h: Seq<u8>, b: u64, t: u64, b2: u64, t2: u64)
    ensures
        progress_applied(progress_applied(s, h, b, t), h, b2, t2) == progress_applied(s, h, b2, t2),
{
    let i = find_hash(s, h, 0);
    lemma_find_hash(s, h, 0);
    if i < s.len() {
        let s1 = progress_applied(s, h, b, t);
        lemma_find_hash_set_state(s, i as int, TransferState::Downloading { bytes_received: b, total_bytes: t }, h);
        assert(find_hash(s1, h, 0) == i);
        assert(progress_applied(s1, h, b2, t2) =~= progress_applied(s, h, b2, t2));
    }
}

/// A completion moves the matching entry to `Complete`, and a progress
/// report arriving afterwards still overwrites it back to `Downloading`:
/// the transitions are not guarded, by design.
pub proof fn lemma_completion_then_progress(s: Seq<TransferEntry>, h: Seq<u8>, path: String, b: u64, t: u64)
    requires
        find_hash(s, h, 0) < s.len(),
    ensures
        ({
            let i = find_hash(s, h, 0);
            let s1 = set_state(s, i, TransferState::Complete(path));
            &&& s1[i].state is Complete
            &&& find_hash(s1, h, 0) == i
            &&& progress_applied(s1, h, b, t) == set_state(
                s1,
                i,
                TransferState::Downloading { bytes_received: b, total_bytes: t },
            )
            &&& progress_applied(s1, h, b, t)[i].state == (TransferState::Downloading {
                bytes_received: b,
                total_bytes: t,
            })
        }),
{
    let i = find_hash(s, h, 0);
    lemma_find_hash(s, h, 0);
    let s1 = set_state(s, i, TransferState::Complete(path));
    lemma_find_hash_set_state(s, i, TransferState::Complete(path), h);
}

impl TransferManager {
    /// An empty transfer list with the cursor at the start.
    pub fn new() -> (r: Self)
        ensures
            r.entries@.len() == 0,
            r.selected_index == 0,
    {
        TransferManager { entries: Vec::new(), selected_index: 0 }
    }

    /// Append an incoming file offer from a remote peer, in state
    /// `Pending`. Offers are not deduplicated: each announcement makes a
    /// new entry, and call order is kept.
    pub fn add_offer(&mut self, offer: FileOffer)
        ensures
            final(self).entries@ == old(self).entries@.push(
                TransferEntry { offer, state: TransferState::Pending },
            ),
            final(self).selected_index == old(self).selected_index,
    {
        self.entries.push(TransferEntry { offer, state: TransferState::Pending });
    }

    /// Append an entry for a file this side shares, in state `Sharing`.
    /// As with received offers, every call appends one entry in order.
    pub fn add_sent(&mut self, offer: FileOffer)
        ensures
            final(self).entries@ == old(self).entries@.push(
                TransferEntry { offer, state: TransferState::Sharing },
            ),
            final(self).selected_index == old(self).selected_index,
    {
        self.entries.push(TransferEntry { offer, state: TransferState::Sharing });
    }

    /// The first entry carrying the hash, or the length when none does.
    fn find_entry(&self, hash: &ContentHash) -> (r: usize)
        ensures
            r as int == find_hash(self.entries@, hash@, 0),
    {
        let ghost s = self.entries@;
        let mut i: usize = 0;
        while i < self.entries.len()
            invariant
                i <= s.len(),
                s == self.entries@,
                forall|j: int| 0 <= j < i ==> (#[trigger] s[j]).offer.hash@ != hash@,
            decreases s.len() - i,
        {
            if self.entries[i].offer.hash == *hash {
                proof {
                    lemma_find_hash_prefix(s, hash@, i as int);
                }
                return i;
            }
            i += 1;
        }
        proof {
            lemma_find_hash_prefix(s, hash@, s.len() as int);
        }
        i
    }

    /// Begin a download: the first entry with the hash moves to
    /// `Downloading` with no bytes received yet and the offer's size as the
    /// total — unless it is already downloading, or no entry carries the
    /// hash; in both cases nothing changes.
    pub fn start_download(&mut self, hash: &ContentHash)
        ensures
            final(self).selected_index == old(self).selected_index,
            ({
                let s = old(self).entries@;
                let i = find_hash(s, hash@, 0);
                if i == s.len() || s[i].state is Downloading {
                    final(self).entries@ == s
                } else {
                    final(self).entries@ == set_state(
                        s,
                        i,
                        TransferState::Downloading { bytes_received: 0, total_bytes: s[i].offer.size },
                    )
                }
            }),
    {
        let i = self.find_entry(hash);
        proof {
            lemma_find_hash(self.entries@, hash@, 0);
        }
        if i < self.entries.len() {
            let already = match &self.entries[i].state {
                TransferState::Downloading { .. } => true,
                _ => false,
            };
            if !already {
                let e = self.entries.remove(i);
                let size = e.offer.size;
                self.entries.insert(
                    i,
                    TransferEntry {
                        offer: e.offer,
                        state: TransferState::Downloading { bytes_received: 0, total_bytes: size },
                    },
                );
                proof {
                    assert(final(self).entries@ =~= set_state(
                        old(self).entries@,
                        i as int,
                        TransferState::Downloading {
                            bytes_received: 0,
                            total_bytes: old(self).entries@[i as int].offer.size,
                        },
                    ));
                }
            }
        }
    }

    /// Apply a progress report: the first entry with the hash moves to
    /// `Downloading` with the reported counts, whatever state it was in;
    /// an unknown hash changes nothing.
    pub fn update_progress(&mut self, hash: &ContentHash, bytes_received: u64, total_bytes: u64)
        ensures
            final(self).selected_index == old(self).selected_index,
            final(self).entries@ == progress_applied(
                old(self).entries@,
                hash@,
                bytes_received,
                total_bytes,
            ),
    {
        let i = self.find_entry(hash);
        proof {
            lemma_find_hash(self.entries@, hash@, 0);
        }
        if i < self.entries.len() {
            let e = self.entries.remove(i);
            self.entries.insert(
                i,
                TransferEntry {
                    offer: e.offer,
                    state: TransferState::Downloading { bytes_received, total_bytes },
                },
            );
            proof {
                assert(final(self).entries@ =~= progress_applied(
                    old(self).entries@,
                    hash@,
                    bytes_received,
                    total_bytes,
                ));
            }
        }
    }

    /// Apply a completion report: the first entry with the hash moves to
    /// `Complete` with the saved path, whatever state it was in; an
    /// unknown hash changes nothing.
    pub fn complete_download(&mut self, hash: &ContentHash, path: String)
        ensures
            final(self).selected_index == old(self).selected_index,
            ({
                let s = old(self).entries@;
                let i = find_hash(s, hash@, 0);
                if i == s.len() {
                    final(self).entries@ == s
                } else {
                    final(self).entries@ == set_state(s, i, TransferState::Complete(path))
                }
            }),
    {
        let i = self.find_entry(hash);
        proof {
            lemma_find_hash(self.entries@, hash@, 0);
        }
        if i < self.entries.len() {
            let e = self.entries.remove(i);
            self.entries.insert(
                i,
                TransferEntry { offer: e.offer, state: TransferState::Complete(path) },
            );
            proof {
                assert(final(self).entries@ =~= set_state(
                    old(self).entries@,
                    i as int,
                    TransferState::Complete(path),
                ));
            }
        } else {
            proof {
                assert(final(self).entries@ =~= old(self).entries@);
            }
        }
    }

    /// Apply a failure report: the first entry with the hash moves to
    /// `Failed` with the error text, whatever state it was in; an unknown
    /// hash changes nothing.
    pub fn fail_download(&mut self, hash: &ContentHash, error: String)
        ensures
            final(self).selected_index == old(self).selected_index,
            ({
                let s = old(self).entries@;
                let i = find_hash(s, hash@, 0);
                if i == s.len() {
                    final(self).entries@ == s
                } else {
                    final(self).entries@ == set_state(s, i, TransferState::Failed(error))
                }
            }),
    {
        let i = self.find_entry(hash);
        proof {
            lemma_find_hash(self.entries@, hash@, 0);
        }
        if i < self.entries.len() {
            let e = self.entries.remove(i);
            self.entries.insert(
                i,
                TransferEntry { offer: e.offer, state: TransferState::Failed(error) },
            );
            proof {
                assert(final(self).entries@ =~= set_state(
                    old(self).entries@,
                    i as int,
                    TransferState::Failed(error),
                ));
            }
        }
    }

    /// The entry under the cursor, or nothing when the cursor is out of
    /// range (in particular on an empty list).
    pub fn selected_entry(&self) -> (r: Option<&TransferEntry>)
        ensures
            match r {
                Some(e) => self.selected_index < self.entries@.len() && *e == self.entries@[
                    self.selected_index as int
                ],
                None => self.selected_index >= self.entries@.len(),
            },
    {
        if self.selected_index < self.entries.len() {
            Some(&self.entries[self.selected_index])
        } else {
            None
        }
    }

    /// Whether there is anything to display.
    pub fn has_entries(&self) -> (r: bool)
        ensures
            r == (self.entries@.len() > 0),
    {
        self.entries.len() > 0
    }

    /// The cursor's invariant: zero on an empty list, in range otherwise;
    /// every operation preserves it.
    pub open spec fn cursor_ok(&self) -> bool {
        if self.entries@.len() == 0 {
            self.selected_index == 0
        } else {
            self.selected_index < self.entries@.len()
        }
    }

    /// Move the cursor to the next entry, wrapping at the end; on an empty
    /// list nothing changes.
    pub fn select_next(&mut self)
        requires
            old(self).cursor_ok(),
        ensures
            final(self).entries@ == old(self).entries@,
            old(self).entries@.len() == 0 ==> final(self).selected_index == old(self).selected_index,
            old(self).entries@.len() > 0 ==> final(self).selected_index as int == (old(self).selected_index as int + 1) % (old(self).entries@.len() as int),
    {
        if self.entries.len() > 0 {
            self.selected_index = (self.selected_index + 1) % self.entries.len();
        }
    }

    /// Move the cursor to the previous entry, wrapping at the start; on an
    /// empty list nothing changes.
    pub fn select_prev(&mut self)
        requires
            old(self).cursor_ok(),
        ensures
            final(self).entries@ == old(self).entries@,
            old(self).entries@.len() == 0 ==> final(self).selected_index == old(self).selected_index,
            old(self).entries@.len() > 0 ==> final(self).selected_index as int == (if old(self).selected_index == 0 {
                old(self).entries@.len() - 1
            } else {
                old(self).selected_index - 1
            }),
    {
        if self.entries.len() > 0 {
            self.selected_index = if self.selected_index == 0 {
                self.entries.len() - 1
            } else {
                self.selected_index - 1
            };
        }
    }
}

/// The cursor position after advancing `k` times through a list of `n`.
pub open spec fn iter_next(sel: int, n: int, k: nat) -> int
    decreases k,
{
    if k == 0 {
        sel
    } else {
        iter_next((sel + 1) % n, n, (k - 1) as nat)
    }
}

/// Advancing lands `k` places further, modulo the length.
proof fn lemma_iter_next_mod(sel: int, n: int, k: nat)
    requires
        0 <= sel < n,
    ensures
        iter_next(sel, n, k) == (sel + k) % n,
    decreases k,
{
    if k == 0 {
        lemma_small_mod(sel as nat, n as nat);
    } else {
        let s1 = (sel + 1) % n;
        vstd::arithmetic::div_mod::lemma_mod_pos_bound(sel + 1, n);
        lemma_iter_next_mod(s1, n, (k - 1) as nat);
        vstd::arithmetic::div_mod::lemma_add_mod_noop_right((k - 1) as int, sel + 1, n);
        assert(iter_next(sel, n, k) == ((k - 1) + s1) % n);
        assert(((k - 1) + s1) % n == ((k - 1) + (sel + 1)) % n);
    }
}

/// Advancing the cursor as many times as the list is long returns it to
/// where it started; this is the cycle the keyboard navigation walks.
pub proof fn lemma_select_cycle(sel: int, n: int)
    requires
        0 <= sel < n,
    ensures
        iter_next(sel, n, n as nat) == sel,
{
    lemma_iter_next_mod(sel, n, n as nat);
    vstd::arithmetic::div_mod::lemma_mod_add_multiples_vanish(sel, n);
    lemma_small_mod(sel as nat, n as nat);
    assert((sel + n) % n == sel);
}

/// The decimal text of a byte count scaled by a unit, to one decimal
/// place, rounding half up: the ASCII bytes of `whole.tenth`.
pub open spec fn scaled_bytes(bytes: u64, d: u64) -> Seq<u8>
    recommends
        d >= 2,
{
    let whole = bytes as int / d as int;
    let rem = bytes as int % d as int;
    let tenth = (rem * 10 + d as int / 2) / d as int;
    if tenth == 10 {
        dec_bytes(whole + 1) + seq![46u8, 48u8]
    } else {
        dec_bytes(whole) + seq![46u8, (48 + tenth) as u8]
    }
}

/// The ASCII bytes of a human-readable file size: scaled to gigabytes,
/// megabytes or kilobytes at the usual 1024-based thresholds, or the plain
/// byte count below a kilobyte.
pub open spec fn file_size_bytes(bytes: u64) -> Seq<u8> {
    if bytes >= 0x40000000 {
        scaled_bytes(bytes, 0x40000000) + seq![32u8, 71u8, 66u8]
    } else if bytes >= 0x100000 {
        scaled_bytes(bytes, 0x100000) + seq![32u8, 77u8, 66u8]
    } else if bytes >= 0x400 {
        scaled_bytes(bytes, 0x400) + seq![32u8, 75u8, 66u8]
    } else {
        dec_bytes(bytes as int) + seq![32u8, 66u8]
    }
}

/// The human-readable form of a file size, e.g. `1.5 KB`.
pub open spec fn file_size_text(bytes: u64) -> Seq<char> {
    ascii_view(file_size_bytes(bytes))
}

/// Append the scaled decimal text of `bytes / d` to one decimal place.
fn push_scaled(out: &mut Vec<u8>, bytes: u64, d: u64)
    requires
        2 <= d <= 0x40000000,
    ensures
        final(out)@ == old(out)@ + scaled_bytes(bytes, d),
{
    let whole = bytes / d;
    let rem = bytes % d;
    let tenth = (rem * 10 + d / 2) / d;
    proof {
        let di: int = d as int;
        let ri: int = rem as int;
        let ti: int = tenth as int;
        let wi: int = whole as int;
        let bi: int = bytes as int;
        assert(ti <= 10) by (nonlinear_arith)
            requires
                2 <= di,
                0 <= ri < di,
                ti == (ri * 10 + di / 2) / di,
        ;
        assert(wi < 0x8000000000000000) by (nonlinear_arith)
            requires
                2 <= di,
                wi == bi / di,
                bi < 0x10000000000000000,
        ;
    }
    if tenth == 10 {
        push_dec_u64(out, whole + 1);
        out.push(46);
        out.push(48);
        proof {
            assert(final(out)@ =~= old(out)@ + scaled_bytes(bytes, d));
        }
    } else {
        push_dec_u64(out, whole);
        out.push(46);
        out.push(48 + tenth as u8);
        proof {
            assert(final(out)@ =~= old(out)@ + scaled_bytes(bytes, d));
        }
    }
}

/// Format a byte count as a human-readable file size string.
pub fn format_file_size(bytes: u64) -> (r: String)
    ensures
        r@ == file_size_text(bytes),
{
    let mut out: Vec<u8> = Vec::new();
    if bytes >= 0x40000000 {
        push_scaled(&mut out, bytes, 0x40000000);
        out.push(32);
        out.push(71);
        out.push(66);
    } else if bytes >= 0x100000 {
        push_scaled(&mut out, bytes, 0x100000);
        out.push(32);
        out.push(77);
        out.push(66);
    } else if bytes >= 0x400 {
        push_scaled(&mut out, bytes, 0x400);
        out.push(32);
        out.push(75);
        out.push(66);
    } else {
        push_dec_u64(&mut out, bytes);
        out.push(32);
        out.push(66);
    }
    proof {
        assert(out@ =~= file_size_bytes(bytes));
        lemma_file_size_bytes_ascii(bytes);
    }
    ascii_to_string(out)
}

/// The formatted size is ASCII.
proof fn lemma_file_size_bytes_ascii(bytes: u64)
    ensures
        crate::strutil::all_ascii(file_size_bytes(bytes)),
{
    lemma_dec_bytes_ascii(bytes as int);
    lemma_dec_bytes_ascii(bytes as int / 0x40000000 + 1);
    lemma_dec_bytes_ascii(bytes as int / 0x40000000);
    lemma_dec_bytes_ascii(bytes as int / 0x100000 + 1);
    lemma_dec_bytes_ascii(bytes as int / 0x100000);
    lemma_dec_bytes_ascii(bytes as int / 0x400 + 1);
    lemma_dec_bytes_ascii(bytes as int / 0x400);
}

} // verus!
