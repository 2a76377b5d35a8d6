//! Connection-quality tracking.
//!
//! The networking layer records, after each handshake, which transport path
//! it selected for a peer; the UI polls the last observation on every tick.
//! A query is total: a peer never recorded, or recorded without a selected
//! path, is `Unknown`; an IP-based path is `Direct`; any other path is
//! `Relay`. A later record overwrites the earlier one unconditionally.

use vstd::prelude::*;
use crate::ids::PeerId;

verus! {

/// Whether a peer connection is direct, relayed, or not yet determined.
#[derive(Debug, Clone, Copy, PartialEq, Eq, Structural)]
pub enum ConnType {
    /// Connection type not yet determined.
    Unknown,
    /// Direct path between the two endpoints.
    Direct,
    /// Traffic is relayed through an intermediary.
    Relay,
}

/// The transport path selected for a connection, as far as the tracker
/// cares: IP-based or not.
#[derive(Debug, Clone, Copy, PartialEq, Eq, Structural)]
pub enum PathKind {
    /// A direct IP path.
    Ip,
    /// A relayed path.
    Relayed,
}

/// Display information about a connected peer.
#[derive(Debug)]
pub struct PeerInfo {
    /// Display name: a chosen nickname, or a short form of the peer id.
    pub name: String,
    /// Connection type, refreshed periodically from the tracker.
    pub conn_type: ConnType,
}

/// The connection type that an observation maps to.
pub open spec fn kind_of(path: Option<PathKind>) -> ConnType {
    match path {
        None => ConnType::Unknown,
        Some(PathKind::Ip) => ConnType::Direct,
        Some(PathKind::Relayed) => ConnType::Relay,
    }
}

/// The last observation recorded for a peer, if any.
pub open spec fn find_obs(s: Seq<(PeerId, Option<PathKind>)>, id: Seq<u8>) -> Option<
    Option<PathKind>,
>
    decreases s.len(),
{
    if s.len() == 0 {
        None
    } else if s[0].0@ == id {
        Some(s[0].1)
    } else {
        find_obs(s.drop_first(), id)
    }
}

/// Per-peer record of the most recently observed connection path.
#[derive(Debug)]
pub struct ConnTracker {
    entries: Vec<(PeerId, Option<PathKind>)>,
}

impl ConnTracker {
    /// One recorded observation per peer.
    pub closed spec fn wf(&self) -> bool {
        forall|i: int, j: int|
            0 <= i < j < self.entries@.len() ==> (#[trigger] self.entries@[i]).0@ != (
            #[trigger] self.entries@[j]).0@
    }

    /// The connection type the tracker answers for a peer.
    pub closed spec fn query_spec(&self, id: Seq<u8>) -> ConnType {
        match find_obs(self.entries@, id) {
            None => ConnType::Unknown,
            Some(path) => kind_of(path),
        }
    }

    /// A fresh tracker: no observations, every peer `Unknown`.
    pub fn new() -> (r: Self)
        ensures
            r.wf(),
            forall|id: Seq<u8>| r.query_spec(id) == ConnType::Unknown,
    {
        ConnTracker { entries: Vec::new() }
    }

    /// Record the path selected at a handshake, overwriting any earlier
    /// observation for that peer and leaving every other peer unchanged.
    pub fn record(&mut self, id: PeerId, path: Option<PathKind>)
        requires
            old(self).wf(),
        ensures
            final(self).wf(),
            final(self).query_spec(id@) == kind_of(path),
            forall|other: Seq<u8>|
                other != id@ ==> final(self).query_spec(other) == old(self).query_spec(other),
    {
        let ghost s0 = self.entries@;
        let mut i: usize = 0;
        while i < self.entries.len()
            invariant
                old(self).wf(),
                i <= self.entries@.len(),
                self == old(self),
                s0 == self.entries@,
                forall|j: int| 0 <= j < i ==> (#[trigger] s0[j]).0@ != id@,
        decreases self.entries@.len() - i,
        {
            if self.entries[i].0 == id {
                self.entries.remove(i);
                self.entries.insert(i, (id, path));
                proof {
                    let s1 = self.entries@;
                    assert(s1 =~= s0.update(i as int, (id, path)));
                    assert forall|k: int, l: int|
                        0 <= k < l < s1.len() implies (#[trigger] s1[k]).0@ != (
                    #[trigger] s1[l]).0@ by {
                        assert(s0[k].0@ != s0[l].0@);
                        if k == i as int {
                            assert(s0[i as int].0@ == id@);
                        }
                        if l == i as int {
                            assert(s0[i as int].0@ == id@);
                        }
                    }
                    lemma_find_obs_update(s0, i as int, id, path);
                }
                return ;
            }
            i += 1;
        }
        self.entries.push((id, path));
        proof {
            let s1 = self.entries@;
            assert(s1 =~= s0.push((id, path)));
            assert forall|k: int, l: int|
                0 <= k < l < s1.len() implies (#[trigger] s1[k]).0@ != (#[trigger] s1[l]).0@ by {
                if l == s0.len() as int {
                    assert(s1[k] == s0[k]);
                } else {
                    assert(s1[k] == s0[k] && s1[l] == s0[l]);
                }
            }
            lemma_find_obs_push(s0, id, path);
        }
    }

    /// Look up the connection type for a peer.
    pub fn conn_type(&self, id: &PeerId) -> (r: ConnType)
        ensures
            r == self.query_spec(id@),
    {
        let mut i: usize = 0;
        while i < self.entries.len()
            invariant
                i <= self.entries@.len(),
                forall|j: int| 0 <= j < i ==> (#[trigger] self.entries@[j]).0@ != id@,
        decreases self.entries@.len() - i,
        {
            if self.entries[i].0 == *id {
                let r = match self.entries[i].1 {
                    None => ConnType::Unknown,
                    Some(PathKind::Ip) => ConnType::Direct,
                    Some(PathKind::Relayed) => ConnType::Relay,
                };
                proof {
                    lemma_find_obs_first(self.entries@, id@, i as int);
                }
                return r;
            }
            i += 1;
        }
        proof {
            lemma_find_obs_absent(self.entries@, id@);
        }
        ConnType::Unknown
    }
}

/// Where no entry matches, the lookup is empty.
proof fn lemma_find_obs_absent(s: Seq<(PeerId, Option<PathKind>)>, id: Seq<u8>)
    requires
        forall|j: int| 0 <= j < s.len() ==> (#[trigger] s[j]).0@ != id,
    ensures
        find_obs(s, id) is None,
    decreases s.len(),
{
    if s.len() > 0 {
        assert(forall|j: int|
            0 <= j < s.drop_first().len() ==> (#[trigger] s.drop_first()[j]).0@ == s[j + 1].0@);
        lemma_find_obs_absent(s.drop_first(), id);
    }
}

/// The lookup answers the first matching entry.
proof fn lemma_find_obs_first(s: Seq<(PeerId, Option<PathKind>)>, id: Seq<u8>, i: int)
    requires
        0 <= i < s.len(),
        s[i].0@ == id,
        forall|j: int| 0 <= j < i ==> (#[trigger] s[j]).0@ != id,
    ensures
        find_obs(s, id) == Some(s[i].1),
    decreases i,
{
    if i > 0 {
        assert(forall|j: int|
            0 <= j < s.drop_first().len() ==> (#[trigger] s.drop_first()[j]).0@ == s[j + 1].0@);
        lemma_find_obs_first(s.drop_first(), id, i - 1);
    }
}

/// Updating the matching entry changes only that peer's lookup.
proof fn lemma_find_obs_update(
    s: Seq<(PeerId, Option<PathKind>)>,
    i: int,
    id: PeerId,
    path: Option<PathKind>,
)
    requires
        0 <= i < s.len(),
        s[i].0@ == id@,
        forall|j: int| 0 <= j < i ==> (#[trigger] s[j]).0@ != id@,
    ensures
        find_obs(s.update(i, (id, path)), id@) == Some(path),
        forall|other: Seq<u8>|
            other != id@ ==> find_obs(s.update(i, (id, path)), other) == find_obs(s, other),
    decreases i,
{
    let s1 = s.update(i, (id, path));
    if i == 0 {
        assert(s1[0] == (id, path));
        assert forall|other: Seq<u8>| other != id@ implies find_obs(s1, other) == find_obs(
            s,
            other,
        ) by {
            assert(s1.drop_first() =~= s.drop_first());
        }
    } else {
        assert(s1.drop_first() =~= s.drop_first().update(i - 1, (id, path)));
        assert(forall|j: int|
            0 <= j < s.drop_first().len() ==> (#[trigger] s.drop_first()[j]).0@ == s[j + 1].0@);
        lemma_find_obs_update(s.drop_first(), i - 1, id, path);
        assert(s1[0] == s[0]);
        assert(find_obs(s1, id@) == Some(path));
        assert forall|other: Seq<u8>| other != id@ implies find_obs(s1, other) == find_obs(
            s,
            other,
        ) by {
            if s[0].0@ != other {
                assert(find_obs(s1, other) == find_obs(s1.drop_first(), other));
                assert(find_obs(s, other) == find_obs(s.drop_first(), other));
            }
        }
    }
}

/// Appending a new peer's entry changes only that peer's lookup.
proof fn lemma_find_obs_push(s: Seq<(PeerId, Option<PathKind>)>, id: PeerId, path: Option<PathKind>)
    requires
        forall|j: int| 0 <= j < s.len() ==> (#[trigger] s[j]).0@ != id@,
    ensures
        find_obs(s.push((id, path)), id@) == Some(path),
        forall|other: Seq<u8>|
            other != id@ ==> find_obs(s.push((id, path)), other) == find_obs(s, other),
    decreases s.len(),
{
    let s1 = s.push((id, path));
    if s.len() == 0 {
        assert(s1[0] == (id, path));
        assert forall|other: Seq<u8>| other != id@ implies find_obs(s1, other) == find_obs(
            s,
            other,
        ) by {
            assert(s1.drop_first() =~= s);
        }
    } else {
        assert(s1[0] == s[0]);
        assert(s1.drop_first() =~= s.drop_first().push((id, path)));
        assert(forall|j: int|
            0 <= j < s.drop_first().len() ==> (#[trigger] s.drop_first()[j]).0@ == s[j + 1].0@);
        lemma_find_obs_push(s.drop_first(), id, path);
        assert(find_obs(s1, id@) == Some(path));
        assert forall|other: Seq<u8>| other != id@ implies find_obs(s1, other) == find_obs(
            s,
            other,
        ) by {
            if s[0].0@ != other {
                assert(find_obs(s1, other) == find_obs(s1.drop_first(), other));
                assert(find_obs(s, other) == find_obs(s.drop_first(), other));
            }
        }
    }
}

} // verus!
