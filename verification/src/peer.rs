//! The set of connected peers and what is known of each.

use vstd::prelude::*;
use std::time::Instant;

verus! {

#[verifier::external_type_specification]
#[verifier::external_body]
pub struct ExInstant(std::time::Instant);

/// The current instant (`std::time::Instant::now`); nothing is promised of
/// the value, which depends on the clock.
#[verifier::external_body]
fn now() -> (t: Instant) {
    Instant::now()
}

/// Unique peer identifier.
pub type PeerId = String;

/// Information about a connected peer.
#[derive(Debug)]
pub struct PeerInfo {
    pub id: PeerId,
    pub address: String,
    pub connected_at: Instant,
    pub last_seen: Instant,
    pub block_height: u64,
}

/// What is known of a peer, as plain values.
pub struct PeerView {
    pub address: Seq<char>,
    pub connected_at: Instant,
    pub last_seen: Instant,
    pub block_height: u64,
}

/// A peer's information as plain values.
pub open spec fn peer_view(p: PeerInfo) -> PeerView {
    PeerView { address: p.address@, connected_at: p.connected_at, last_seen: p.last_seen, block_height: p.block_height }
}

/// The peers of a list, by id.
pub open spec fn peers_map(s: Seq<PeerInfo>) -> Map<Seq<char>, PeerView>
    decreases s.len(),
{
    if s.len() == 0 {
        Map::empty()
    } else {
        peers_map(s.drop_last()).insert(s.last().id@, peer_view(s.last()))
    }
}

/// No two peers share an id.
pub open spec fn distinct_ids(s: Seq<PeerInfo>) -> bool {
    forall|i: int, j: int| 0 <= i < j < s.len() ==> s[i].id@ != s[j].id@
}

proof fn lemma_peers_map(s: Seq<PeerInfo>)
    requires
        distinct_ids(s),
    ensures
        peers_map(s).dom().finite(),
        peers_map(s).dom().len() == s.len(),
        forall|k: Seq<char>| #[trigger] peers_map(s).contains_key(k) <==> exists|i: int| 0 <= i < s.len() && s[i].id@ == k,
        forall|i: int| 0 <= i < s.len() ==> #[trigger] peers_map(s)[s[i].id@] == peer_view(s[i]),
    decreases s.len(),
{
    if s.len() > 0 {
        let t = s.drop_last();
        lemma_peers_map(t);
        assert forall|k: Seq<char>| #[trigger] peers_map(s).contains_key(k) <==> exists|i: int| 0 <= i < s.len() && s[i].id@ == k by {
            if peers_map(s).contains_key(k) && k != s.last().id@ {
                let i = choose|i: int| 0 <= i < t.len() && t[i].id@ == k;
                assert(s[i].id@ == k);
            }
            if exists|i: int| 0 <= i < s.len() && s[i].id@ == k {
                let i = choose|i: int| 0 <= i < s.len() && s[i].id@ == k;
                if i < t.len() {
                    assert(t[i].id@ == k);
                }
            }
        }
        assert forall|i: int| 0 <= i < s.len() implies #[trigger] peers_map(s)[s[i].id@] == peer_view(s[i]) by {
            if i < t.len() {
                assert(t[i] == s[i]);
            }
        }
        assert(!peers_map(t).contains_key(s.last().id@)) by {
            if peers_map(t).contains_key(s.last().id@) {
                let i = choose|i: int| 0 <= i < t.len() && t[i].id@ == s.last().id@;
                assert(s[i].id@ == s[s.len() - 1].id@);
            }
        }
    }
}

/// Peers that agree but for entry `i` give the same map but at its id.
proof fn lemma_peers_map_set(s: Seq<PeerInfo>, i: int, p: PeerInfo)
    requires
        distinct_ids(s),
        0 <= i < s.len(),
        p.id@ == s[i].id@,
    ensures
        distinct_ids(s.update(i, p)),
        peers_map(s.update(i, p)) == peers_map(s).insert(p.id@, peer_view(p)),
{
    let u = s.update(i, p);
    assert(distinct_ids(u)) by {
        assert forall|a: int, b: int| 0 <= a < b < u.len() implies u[a].id@ != u[b].id@ by {
            assert(s[a].id@ != s[b].id@);
        }
    }
    lemma_peers_map(s);
    lemma_peers_map(u);
    assert forall|k: Seq<char>| #[trigger] peers_map(u).contains_key(k) == peers_map(s).insert(p.id@, peer_view(p)).contains_key(k) by {
        if peers_map(u).contains_key(k) {
            let j = choose|j: int| 0 <= j < u.len() && u[j].id@ == k;
            assert(s[j].id@ == k);
        }
        if peers_map(s).contains_key(k) {
            let j = choose|j: int| 0 <= j < s.len() && s[j].id@ == k;
            assert(u[j].id@ == k);
        }
    }
    assert forall|k: Seq<char>| #[trigger] peers_map(u).contains_key(k) implies peers_map(u)[k] == peers_map(s).insert(p.id@, peer_view(p))[k] by {
        let j = choose|j: int| 0 <= j < u.len() && u[j].id@ == k;
        if j != i {
            assert(u[j] == s[j]);
        }
    }
    assert(peers_map(u) =~= peers_map(s).insert(p.id@, peer_view(p)));
}

/// Manages the set of connected peers.
pub struct PeerManager {
    peers: Vec<PeerInfo>,
    max_peers: usize,
}

impl PeerManager {
    /// The connected peers by id.
    pub closed spec fn peer_map(&self) -> Map<Seq<char>, PeerView> {
        peers_map(self.peers@)
    }

    /// The most peers accepted.
    pub closed spec fn capacity(&self) -> nat {
        self.max_peers as nat
    }

    /// Ids are distinct, and there are never more peers than the capacity.
    #[verifier::type_invariant]
    spec fn wf(&self) -> bool {
        distinct_ids(self.peers@) && self.peers@.len() <= self.max_peers
    }

    /// No peers, room for `max_peers`.
    pub fn new(max_peers: usize) -> (pm: Self)
        ensures
            pm.peer_map() == Map::<Seq<char>, PeerView>::empty(),
            pm.capacity() == max_peers,
    {
        PeerManager { peers: Vec::new(), max_peers }
    }

    /// Position of the peer with this id.
    fn find(&self, id: &str) -> (r: Option<usize>)
        ensures
            r matches Some(i) ==> i < self.peers@.len() && self.peers@[i as int].id@ == id@,
            r is None ==> forall|i: int| 0 <= i < self.peers@.len() ==> self.peers@[i].id@ != id@,
    {
        let key = String::from_str(id);
        let mut i: usize = 0;
        while i < self.peers.len()
            invariant
                i <= self.peers@.len(),
                key@ == id@,
                forall|j: int| 0 <= j < i ==> self.peers@[j].id@ != id@,
            decreases self.peers@.len() - i,
        {
            if self.peers[i].id == key {
                return Some(i);
            }
            i += 1;
        }
        None
    }

    /// Register a new peer connection, connected and last seen now, at
    /// height 0; a known id is replaced. Refused (false, nothing changes)
    /// when the manager already holds `max_peers` peers.
    pub fn add_peer(&mut self, id: PeerId, address: String) -> (added: bool)
        ensures
            added == (old(self).peer_map().dom().len() < old(self).capacity()),
            final(self).capacity() == old(self).capacity(),
            !added ==> final(self).peer_map() == old(self).peer_map(),
            added ==> final(self).peer_map().dom() == old(self).peer_map().dom().insert(id@),
            added ==> final(self).peer_map()[id@].address == address@ && final(self).peer_map()[id@].block_height == 0
                && final(self).peer_map()[id@].connected_at == final(self).peer_map()[id@].last_seen,
            added ==> forall|k: Seq<char>| k != id@ && #[trigger] old(self).peer_map().contains_key(k)
                ==> final(self).peer_map()[k] == old(self).peer_map()[k],
    {
        proof {
            use_type_invariant(&*self);
            lemma_peers_map(self.peers@);
        }
        if self.peers.len() >= self.max_peers {
            return false;
        }
        let t = now();
        let ghost kv = id@;
        let info = PeerInfo { id, address, connected_at: t, last_seen: t, block_height: 0 };
        let ghost pv = peer_view(info);
        let found = self.find(info.id.as_str());
        let mut peers: Vec<PeerInfo> = Vec::new();
        std::mem::swap(&mut peers, &mut self.peers);
        let ghost before = peers@;
        match found {
            Some(i) => {
                peers.set(i, info);
                proof {
                    lemma_peers_map_set(before, i as int, peers@[i as int]);
                    assert(peers@ == before.update(i as int, peers@[i as int]));
                }
            },
            None => {
                peers.push(info);
                proof {
                    assert(peers@.drop_last() =~= before);
                    assert(distinct_ids(peers@));
                }
            },
        }
        self.peers = peers;
        proof {
            lemma_peers_map(self.peers@);
            assert(self.peer_map() =~= peers_map(before).insert(kv, pv));
        }
        true
    }

    /// Remove a peer (nothing happens for an unknown id).
    pub fn remove_peer(&mut self, id: &str)
        ensures
            final(self).peer_map() == old(self).peer_map().remove(id@),
            final(self).capacity() == old(self).capacity(),
    {
        proof {
            use_type_invariant(&*self);
            lemma_peers_map(self.peers@);
        }
        match self.find(id) {
            Some(i) => {
                let mut peers: Vec<PeerInfo> = Vec::new();
                std::mem::swap(&mut peers, &mut self.peers);
                let ghost before = peers@;
                peers.remove(i);
                proof {
                    let s = peers@;
                    assert forall|a: int, b: int| 0 <= a < b < s.len() implies s[a].id@ != s[b].id@ by {
                        let a0 = if a < i { a } else { a + 1 };
                        let b0 = if b < i { b } else { b + 1 };
                        assert(s[a] == before[a0] && s[b] == before[b0]);
                    }
                    lemma_peers_map(s);
                    assert forall|k: Seq<char>| #[trigger] peers_map(s).contains_key(k) == peers_map(before).remove(id@).contains_key(k) by {
                        if peers_map(s).contains_key(k) {
                            let j = choose|j: int| 0 <= j < s.len() && s[j].id@ == k;
                            let j0 = if j < i { j } else { j + 1 };
                            assert(before[j0].id@ == k);
                            assert(k != id@) by {
                                if k == id@ {
                                    assert(before[j0].id@ == before[i as int].id@);
                                }
                            }
                        }
                        if peers_map(before).remove(id@).contains_key(k) {
                            let j = choose|j: int| 0 <= j < before.len() && before[j].id@ == k;
                            assert(j != i);
                            let j1 = if j < i { j } else { j - 1 };
                            assert(s[j1].id@ == k);
                        }
                    }
                    assert forall|k: Seq<char>| #[trigger] peers_map(s).contains_key(k) implies peers_map(s)[k] == peers_map(before)[k] by {
                        let j = choose|j: int| 0 <= j < s.len() && s[j].id@ == k;
                        let j0 = if j < i { j } else { j + 1 };
                        assert(s[j] == before[j0]);
                    }
                    assert(peers_map(s) =~= peers_map(before).remove(id@));
                }
                self.peers = peers;
            },
            None => {
                proof {
                    assert(!self.peer_map().contains_key(id@)) by {
                        if self.peer_map().contains_key(id@) {
                            let j = choose|j: int| 0 <= j < self.peers@.len() && self.peers@[j].id@ == id@;
                        }
                    }
                    assert(self.peer_map() =~= old(self).peer_map().remove(id@));
                }
            },
        }
    }

    /// Mark a peer as seen now (nothing happens for an unknown id).
    pub fn touch(&mut self, id: &str)
        ensures
            final(self).peer_map().dom() == old(self).peer_map().dom(),
            final(self).capacity() == old(self).capacity(),
            forall|k: Seq<char>| k != id@ && #[trigger] old(self).peer_map().contains_key(k)
                ==> final(self).peer_map()[k] == old(self).peer_map()[k],
            old(self).peer_map().contains_key(id@) ==> ({
                let (o, n) = (old(self).peer_map()[id@], final(self).peer_map()[id@]);
                n.address == o.address && n.connected_at == o.connected_at && n.block_height == o.block_height
            }),
    {
        proof {
            use_type_invariant(&*self);
            lemma_peers_map(self.peers@);
        }
        match self.find(id) {
            Some(i) => {
                let t = now();
                let q = &self.peers[i];
                let p = PeerInfo {
                    id: q.id.clone(),
                    address: q.address.clone(),
                    connected_at: q.connected_at,
                    last_seen: t,
                    block_height: q.block_height,
                };
                self.set_peer(i, p);
            },
            None => {},
        }
    }

    /// Record a peer's known block height (nothing happens for an unknown id).
    pub fn update_height(&mut self, id: &str, height: u64)
        ensures
            final(self).peer_map().dom() == old(self).peer_map().dom(),
            final(self).capacity() == old(self).capacity(),
            forall|k: Seq<char>| k != id@ && #[trigger] old(self).peer_map().contains_key(k)
                ==> final(self).peer_map()[k] == old(self).peer_map()[k],
            old(self).peer_map().contains_key(id@) ==> final(self).peer_map()[id@] == (PeerView {
                block_height: height,
                ..old(self).peer_map()[id@]
            }),
    {
        proof {
            use_type_invariant(&*self);
            lemma_peers_map(self.peers@);
        }
        match self.find(id) {
            Some(i) => {
                let q = &self.peers[i];
                let p = PeerInfo {
                    id: q.id.clone(),
                    address: q.address.clone(),
                    connected_at: q.connected_at,
                    last_seen: q.last_seen,
                    block_height: height,
                };
                self.set_peer(i, p);
            },
            None => {},
        }
    }

    /// Replace the peer at `i` by one with the same id.
    fn set_peer(&mut self, i: usize, p: PeerInfo)
        requires
            i < old(self).peers@.len(),
            p.id@ == old(self).peers@[i as int].id@,
        ensures
            final(self).peer_map() == old(self).peer_map().insert(p.id@, peer_view(p)),
            final(self).capacity() == old(self).capacity(),
    {
        proof {
            use_type_invariant(&*self);
        }
        let mut peers: Vec<PeerInfo> = Vec::new();
        std::mem::swap(&mut peers, &mut self.peers);
        let ghost before = peers@;
        let ghost pv = p;
        peers.set(i, p);
        proof {
            lemma_peers_map_set(before, i as int, pv);
        }
        self.peers = peers;
    }

    /// Information about a peer.
    pub fn get(&self, id: &str) -> (r: Option<&PeerInfo>)
        ensures
            r is None <==> !self.peer_map().contains_key(id@),
            r matches Some(p) ==> p.id@ == id@ && peer_view(*p) == self.peer_map()[id@],
    {
        proof {
            use_type_invariant(self);
            lemma_peers_map(self.peers@);
        }
        match self.find(id) {
            Some(i) => Some(&self.peers[i]),
            None => {
                proof {
                    if self.peer_map().contains_key(id@) {
                        let j = choose|j: int| 0 <= j < self.peers@.len() && self.peers@[j].id@ == id@;
                    }
                }
                None
            },
        }
    }

    /// Number of connected peers.
    pub fn count(&self) -> (n: usize)
        ensures
            n == self.peer_map().dom().len(),
            n <= self.capacity(),
    {
        proof {
            use_type_invariant(self);
            lemma_peers_map(self.peers@);
        }
        self.peers.len()
    }

    /// The ids of all connected peers (each once).
    pub fn peer_ids(&self) -> (ids: Vec<&PeerId>)
        ensures
            ids@.len() == self.peer_map().dom().len(),
            forall|k: Seq<char>| self.peer_map().contains_key(k) <==> exists|i: int| 0 <= i < ids@.len() && (#[trigger] ids@[i])@ == k,
    {
        proof {
            use_type_invariant(self);
            lemma_peers_map(self.peers@);
        }
        let mut ids: Vec<&PeerId> = Vec::new();
        let mut i: usize = 0;
        while i < self.peers.len()
            invariant
                i <= self.peers@.len(),
                ids@.len() == i,
                forall|j: int| 0 <= j < i ==> (#[trigger] ids@[j])@ == self.peers@[j].id@,
            decreases self.peers@.len() - i,
        {
            ids.push(&self.peers[i].id);
            i += 1;
        }
        proof {
            assert forall|k: Seq<char>| self.peer_map().contains_key(k) <==> exists|j: int| 0 <= j < ids@.len() && (#[trigger] ids@[j])@ == k by {
                if self.peer_map().contains_key(k) {
                    let j = choose|j: int| 0 <= j < self.peers@.len() && self.peers@[j].id@ == k;
                    assert(ids@[j]@ == k);
                }
                if exists|j: int| 0 <= j < ids@.len() && (#[trigger] ids@[j])@ == k {
                    let j = choose|j: int| 0 <= j < ids@.len() && (#[trigger] ids@[j])@ == k;
                    assert(self.peers@[j].id@ == k);
                }
            }
        }
        ids
    }

    /// Whether at least one peer is connected.
    pub fn is_connected(&self) -> (b: bool)
        ensures
            b == (self.peer_map().dom().len() > 0),
    {
        proof {
            use_type_invariant(self);
            lemma_peers_map(self.peers@);
        }
        self.peers.len() > 0
    }
}

} // verus!
