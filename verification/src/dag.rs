//! The Hashgraph-style DAG of consensus events. Each event references a
//! self-parent (previous event by the same creator) and an other-parent (an
//! event from a different creator); a zero hash means "no parent".

use vstd::prelude::*;
use crate::consensus_types::Event;
use crate::crypto::Address;
use crate::keymap::bytes_eq;
use crate::merkle::{hash_eq, hashes_view};

verus! {

/// Why an event could not be inserted.
#[derive(Debug, Clone, Copy, PartialEq, Eq, Structural)]
pub enum DagError {
    DuplicateEvent,
    MissingSelfParent,
    MissingOtherParent,
}

/// The message of a DAG error.
pub open spec fn dag_error_text(e: DagError) -> Seq<char> {
    match e {
        DagError::DuplicateEvent => "duplicate event hash"@,
        DagError::MissingSelfParent => "self-parent not found in DAG"@,
        DagError::MissingOtherParent => "other-parent not found in DAG"@,
    }
}

impl DagError {
    /// The error as text.
    pub fn to_string(&self) -> (s: String)
        ensures
            s@ == dag_error_text(*self),
    {
        match self {
            DagError::DuplicateEvent => String::from_str("duplicate event hash"),
            DagError::MissingSelfParent => String::from_str("self-parent not found in DAG"),
            DagError::MissingOtherParent => String::from_str("other-parent not found in DAG"),
        }
    }
}

/// The 32-byte zero hash ("no parent").
pub open spec fn no_parent() -> Seq<u8> {
    Seq::new(32, |i: int| 0u8)
}

/// Some event of the list has this hash.
pub open spec fn has_hash(evs: Seq<Event>, h: Seq<u8>) -> bool {
    exists|i: int| 0 <= i < evs.len() && evs[i].hash@ == h
}

/// The index of the event with this hash, if any.
pub open spec fn index_of(evs: Seq<Event>, h: Seq<u8>) -> Option<int> {
    if has_hash(evs, h) {
        Some(choose|i: int| 0 <= i < evs.len() && evs[i].hash@ == h)
    } else {
        None
    }
}

/// A set of hashes that holds the non-zero parents of each of its events.
pub open spec fn parent_closed(evs: Seq<Event>, s: Set<Seq<u8>>) -> bool {
    forall|i: int|
        0 <= i < evs.len() && #[trigger] s.contains(evs[i].hash@) ==> {
            &&& (evs[i].self_parent@ != no_parent() ==> s.contains(evs[i].self_parent@))
            &&& (evs[i].other_parent@ != no_parent() ==> s.contains(evs[i].other_parent@))
        }
}

/// `x` is `y` or reachable from `y` through parent links: every parent-closed
/// set of hashes that holds `y` holds `x`.
pub open spec fn ancestor(evs: Seq<Event>, x: Seq<u8>, y: Seq<u8>) -> bool {
    forall|s: Set<Seq<u8>>| s.contains(y) && parent_closed(evs, s) ==> s.contains(x)
}

/// Some event by `creator` is seen by `x` and sees `y`.
pub open spec fn seen_via(evs: Seq<Event>, x: Seq<u8>, y: Seq<u8>, creator: Seq<u8>) -> bool {
    exists|i: int|
        0 <= i < evs.len() && #[trigger] evs[i].creator@ == creator && ancestor(evs, evs[i].hash@, x) && ancestor(evs, y, evs[i].hash@)
}

/// How many of the listed creators `x` reaches `y` through.
pub open spec fn seers(evs: Seq<Event>, x: Seq<u8>, y: Seq<u8>, creators: Seq<Seq<u8>>) -> nat
    decreases creators.len(),
{
    if creators.len() == 0 {
        0
    } else {
        seers(evs, x, y, creators.drop_last()) + if seen_via(evs, x, y, creators.last()) { 1nat } else { 0nat }
    }
}

/// `x` strongly sees `y`: through events of at least `count` of the listed
/// creators (and the list is not empty).
pub open spec fn spec_strongly_sees(evs: Seq<Event>, x: Seq<u8>, y: Seq<u8>, creators: Seq<Seq<u8>>, count: nat) -> bool {
    creators.len() > 0 && seers(evs, x, y, creators) >= count
}

/// The addresses of a list, as byte sequences.
pub open spec fn addresses_view(a: Seq<Address>) -> Seq<Seq<u8>> {
    a.map_values(|x: Address| x@)
}

/// Insert an event after every event with at most its timestamp.
pub open spec fn insert_by_time(sorted: Seq<Event>, e: Event) -> Seq<Event>
    decreases sorted.len(),
{
    if sorted.len() == 0 {
        seq![e]
    } else if sorted.last().timestamp <= e.timestamp {
        sorted.push(e)
    } else {
        insert_by_time(sorted.drop_last(), e).push(sorted.last())
    }
}

/// Events ordered by timestamp; equal timestamps keep insertion order.
pub open spec fn by_time(evs: Seq<Event>) -> Seq<Event>
    decreases evs.len(),
{
    if evs.len() == 0 {
        Seq::empty()
    } else {
        insert_by_time(by_time(evs.drop_last()), evs.last())
    }
}

/// The hashes of the events.
pub open spec fn event_hashes(evs: Seq<Event>) -> Seq<Seq<u8>> {
    evs.map_values(|e: Event| e.hash@)
}

/// The hashes of the events by `creator`, in order.
pub open spec fn creator_hashes(evs: Seq<Event>, creator: Seq<u8>) -> Seq<Seq<u8>>
    decreases evs.len(),
{
    if evs.len() == 0 {
        Seq::empty()
    } else if evs.last().creator@ == creator {
        creator_hashes(evs.drop_last(), creator).push(evs.last().hash@)
    } else {
        creator_hashes(evs.drop_last(), creator)
    }
}

/// How many events have a hash in `visited`.
pub open spec fn count_visited(evs: Seq<Event>, visited: Seq<Seq<u8>>) -> nat
    decreases evs.len(),
{
    if evs.len() == 0 {
        0
    } else {
        count_visited(evs.drop_last(), visited) + if visited.contains(evs.last().hash@) { 1nat } else { 0nat }
    }
}

/// Hashes are distinct.
pub open spec fn distinct_hashes(evs: Seq<Event>) -> bool {
    forall|i: int, j: int| 0 <= i < j < evs.len() ==> evs[i].hash@ != evs[j].hash@
}

/// Every non-zero parent is the hash of some event.
pub open spec fn parents_present(evs: Seq<Event>) -> bool {
    forall|i: int|
        0 <= i < evs.len() ==> {
            &&& (#[trigger] evs[i].self_parent@ != no_parent() ==> has_hash(evs, evs[i].self_parent@))
            &&& (evs[i].other_parent@ != no_parent() ==> has_hash(evs, evs[i].other_parent@))
        }
}

proof fn lemma_count_le(evs: Seq<Event>, visited: Seq<Seq<u8>>)
    ensures
        count_visited(evs, visited) <= evs.len(),
    decreases evs.len(),
{
    if evs.len() > 0 {
        lemma_count_le(evs.drop_last(), visited);
    }
}

/// Visiting a new hash counts once if some event has it, else not at all.
proof fn lemma_count_push(evs: Seq<Event>, visited: Seq<Seq<u8>>, h: Seq<u8>)
    requires
        distinct_hashes(evs),
        !visited.contains(h),
    ensures
        has_hash(evs, h) ==> count_visited(evs, visited.push(h)) == count_visited(evs, visited) + 1,
        !has_hash(evs, h) ==> count_visited(evs, visited.push(h)) == count_visited(evs, visited),
    decreases evs.len(),
{
    if evs.len() > 0 {
        let t = evs.drop_last();
        assert(distinct_hashes(t)) by {
            assert forall|i: int, j: int| 0 <= i < j < t.len() implies t[i].hash@ != t[j].hash@ by {
                assert(evs[i] == t[i] && evs[j] == t[j]);
            }
        }
        lemma_count_push(t, visited, h);
        assert(visited.push(h).contains(evs.last().hash@) == (visited.contains(evs.last().hash@) || evs.last().hash@ == h)) by {
            if evs.last().hash@ == h {
                assert(visited.push(h)[visited.len() as int] == h);
            }
            if visited.push(h).contains(evs.last().hash@) {
                let k = choose|k: int| 0 <= k < visited.push(h).len() && visited.push(h)[k] == evs.last().hash@;
                if k < visited.len() {
                    assert(visited[k] == evs.last().hash@);
                }
            }
            if visited.contains(evs.last().hash@) {
                let k = choose|k: int| 0 <= k < visited.len() && visited[k] == evs.last().hash@;
                assert(visited.push(h)[k] == visited[k]);
            }
        }
        if evs.last().hash@ == h {
            assert(!has_hash(t, h)) by {
                if has_hash(t, h) {
                    let i = choose|i: int| 0 <= i < t.len() && t[i].hash@ == h;
                    assert(evs[i].hash@ == evs[evs.len() - 1].hash@);
                }
            }
            assert(has_hash(evs, h)) by {
                assert(evs[evs.len() - 1].hash@ == h);
            }
        } else {
            assert(has_hash(evs, h) == has_hash(t, h)) by {
                if has_hash(evs, h) {
                    let i = choose|i: int| 0 <= i < evs.len() && evs[i].hash@ == h;
                    assert(t[i].hash@ == h);
                }
                if has_hash(t, h) {
                    let i = choose|i: int| 0 <= i < t.len() && t[i].hash@ == h;
                    assert(evs[i].hash@ == h);
                }
            }
        }
    }
}

/// The Hashgraph-style DAG.
pub struct Dag {
    /// All events, in insertion order.
    events: Vec<Event>,
    /// Hashes of events that no event references as a parent yet.
    tips: Vec<crate::crypto::Hash>,
}

impl Dag {
    /// The events, in insertion order.
    pub closed spec fn events(&self) -> Seq<Event> {
        self.events@
    }

    /// The tip hashes.
    pub closed spec fn tip_set(&self) -> Set<Seq<u8>> {
        hashes_view(self.tips@).to_set()
    }

    /// Hashes are distinct, parents are present, tips are distinct.
    pub closed spec fn wf(&self) -> bool {
        &&& distinct_hashes(self.events@)
        &&& parents_present(self.events@)
        &&& forall|i: int, j: int| 0 <= i < j < self.tips@.len() ==> self.tips@[i]@ != self.tips@[j]@
        &&& forall|i: int| 0 <= i < self.tips@.len() ==> has_hash(self.events@, #[trigger] self.tips@[i]@)
    }

    /// An empty DAG.
    pub fn new() -> (d: Self)
        ensures
            d.wf(),
            d.events() == Seq::<Event>::empty(),
            d.tip_set() == Set::<Seq<u8>>::empty(),
    {
        let d = Dag { events: Vec::new(), tips: Vec::new() };
        assert(d.tip_set() =~= Set::<Seq<u8>>::empty());
        d
    }

    /// Position of the event with this hash.
    fn find(&self, hash: &crate::crypto::Hash) -> (r: Option<usize>)
        requires
            self.wf(),
        ensures
            r is None <==> !has_hash(self.events(), hash@),
            r matches Some(i) ==> i < self.events().len() && self.events()[i as int].hash@ == hash@ && index_of(self.events(), hash@) == Some(i as int),
    {
        let mut i: usize = 0;
        while i < self.events.len()
            invariant
                self.wf(),
                i <= self.events@.len(),
                forall|j: int| 0 <= j < i ==> self.events@[j].hash@ != hash@,
            decreases self.events@.len() - i,
        {
            if hash_eq(&self.events[i].hash, hash) {
                proof {
                    let k = choose|k: int| 0 <= k < self.events@.len() && self.events@[k].hash@ == hash@;
                    assert(k == i) by {
                        if k != i {
                            assert(self.events@[k].hash@ != self.events@[i as int].hash@);
                        }
                    }
                }
                return Some(i);
            }
            i += 1;
        }
        None
    }

    /// Remove `h` from the tips, if present.
    fn remove_tip(&mut self, h: &crate::crypto::Hash)
        requires
            old(self).wf(),
        ensures
            final(self).wf(),
            final(self).events() == old(self).events(),
            final(self).tip_set() == old(self).tip_set().remove(h@),
    {
        let mut i: usize = 0;
        while i < self.tips.len()
            invariant
                self.wf(),
                self.events@ == old(self).events@,
                self.tips@ == old(self).tips@,
                i <= self.tips@.len(),
                forall|j: int| 0 <= j < i ==> self.tips@[j]@ != h@,
            decreases self.tips@.len() - i,
        {
            if hash_eq(&self.tips[i], h) {
                let ghost before = self.tips@;
                self.tips.remove(i);
                proof {
                    assert forall|a: int, b: int| 0 <= a < b < self.tips@.len() implies self.tips@[a]@ != self.tips@[b]@ by {
                        let a0 = if a < i { a } else { a + 1 };
                        let b0 = if b < i { b } else { b + 1 };
                        assert(self.tips@[a] == before[a0] && self.tips@[b] == before[b0]);
                    }
                    assert forall|k: Seq<u8>| #[trigger] hashes_view(self.tips@).to_set().contains(k) == hashes_view(before).to_set().remove(h@).contains(k) by {
                        if hashes_view(self.tips@).to_set().contains(k) {
                            let m = choose|m: int| 0 <= m < hashes_view(self.tips@).len() && hashes_view(self.tips@)[m] == k;
                            let m0 = if m < i { m } else { m + 1 };
                            assert(hashes_view(before)[m0] == k);
                            assert(k != h@) by {
                                if k == h@ {
                                    assert(before[m0]@ == before[i as int]@);
                                }
                            }
                        }
                        if hashes_view(before).to_set().remove(h@).contains(k) {
                            let m = choose|m: int| 0 <= m < hashes_view(before).len() && hashes_view(before)[m] == k;
                            assert(m != i);
                            let m1 = if m < i { m } else { m - 1 };
                            assert(hashes_view(self.tips@)[m1] == k);
                        }
                    }
                    assert(self.tip_set() =~= old(self).tip_set().remove(h@));
                }
                return;
            }
            i += 1;
        }
        proof {
            assert forall|k: Seq<u8>| #[trigger] hashes_view(self.tips@).to_set().contains(k) implies k != h@ by {
                let m = choose|m: int| 0 <= m < hashes_view(self.tips@).len() && hashes_view(self.tips@)[m] == k;
                assert(self.tips@[m]@ == k);
            }
            assert(self.tip_set() =~= old(self).tip_set().remove(h@));
        }
    }

    // ── Insertion ──────────────────────────────────────────────────────

    /// Insert a new event into the DAG. Fails on a duplicate hash or a
    /// missing (non-zero) parent, checked in that order. On success the
    /// event's parents stop being tips and the event becomes one.
    pub fn insert(&mut self, event: Event) -> (r: Result<(), DagError>)
        requires
            old(self).wf(),
        ensures
            final(self).wf(),
            has_hash(old(self).events(), event.hash@) ==> r == Err::<(), DagError>(DagError::DuplicateEvent),
            !has_hash(old(self).events(), event.hash@) && event.self_parent@ != no_parent()
                && !has_hash(old(self).events(), event.self_parent@) ==> r == Err::<(), DagError>(DagError::MissingSelfParent),
            !has_hash(old(self).events(), event.hash@) && !(event.self_parent@ != no_parent()
                && !has_hash(old(self).events(), event.self_parent@)) && event.other_parent@ != no_parent()
                && !has_hash(old(self).events(), event.other_parent@) ==> r == Err::<(), DagError>(DagError::MissingOtherParent),
            r is Err ==> has_hash(old(self).events(), event.hash@)
                || (event.self_parent@ != no_parent() && !has_hash(old(self).events(), event.self_parent@))
                || (event.other_parent@ != no_parent() && !has_hash(old(self).events(), event.other_parent@)),
            r is Err ==> final(self).events() == old(self).events() && final(self).tip_set() == old(self).tip_set(),
            r is Ok ==> final(self).events() == old(self).events().push(event) && final(self).tip_set() == {
                let t1 = if event.self_parent@ != no_parent() { old(self).tip_set().remove(event.self_parent@) } else { old(self).tip_set() };
                let t2 = if event.other_parent@ != no_parent() { t1.remove(event.other_parent@) } else { t1 };
                t2.insert(event.hash@)
            },
    {
        if self.find(&event.hash).is_some() {
            return Err(DagError::DuplicateEvent);
        }
        let zero = [0u8; 32];
        assert(zero@ =~= no_parent());
        let has_self = !hash_eq(&event.self_parent, &zero);
        let has_other = !hash_eq(&event.other_parent, &zero);
        if has_self && self.find(&event.self_parent).is_none() {
            return Err(DagError::MissingSelfParent);
        }
        if has_other && self.find(&event.other_parent).is_none() {
            return Err(DagError::MissingOtherParent);
        }
        if has_self {
            self.remove_tip(&event.self_parent);
        }
        if has_other {
            self.remove_tip(&event.other_parent);
        }
        let ghost tips_before = self.tip_set();
        let ghost tips_seq = self.tips@;
        self.tips.push(event.hash);
        let ghost before = self.events@;
        self.events.push(event);
        proof {
            assert(self.events@.drop_last() =~= before);
            let ev = self.events@;
            assert forall|i: int| 0 <= i < before.len() implies ev[i] == before[i] by {}
            assert forall|h: Seq<u8>| has_hash(before, h) implies has_hash(ev, h) by {
                let i = choose|i: int| 0 <= i < before.len() && before[i].hash@ == h;
                assert(ev[i].hash@ == h);
            }
            assert(has_hash(ev, event.hash@)) by {
                assert(ev[before.len() as int].hash@ == event.hash@);
            }
            assert forall|i: int| 0 <= i < self.tips@.len() implies has_hash(ev, #[trigger] self.tips@[i]@) by {
                if i < tips_seq.len() {
                    assert(self.tips@[i] == tips_seq[i]);
                    assert(has_hash(before, tips_seq[i]@));
                }
            }
            assert forall|a: int, b: int| 0 <= a < b < self.tips@.len() implies self.tips@[a]@ != self.tips@[b]@ by {
                if b == tips_seq.len() {
                    assert(has_hash(before, tips_seq[a]@));
                    assert(self.tips@[a] == tips_seq[a]);
                } else {
                    assert(self.tips@[a] == tips_seq[a] && self.tips@[b] == tips_seq[b]);
                }
            }
            assert(distinct_hashes(ev)) by {
                assert forall|a: int, b: int| 0 <= a < b < ev.len() implies ev[a].hash@ != ev[b].hash@ by {
                    if b == before.len() {
                        assert(ev[a] == before[a]);
                    } else {
                        assert(ev[a] == before[a] && ev[b] == before[b]);
                    }
                }
            }
            assert(parents_present(ev)) by {
                assert forall|i: int| 0 <= i < ev.len() implies {
                    &&& (#[trigger] ev[i].self_parent@ != no_parent() ==> has_hash(ev, ev[i].self_parent@))
                    &&& (ev[i].other_parent@ != no_parent() ==> has_hash(ev, ev[i].other_parent@))
                } by {
                    if i < before.len() {
                        assert(ev[i] == before[i]);
                    }
                }
            }
            let hv = hashes_view(self.tips@);
            let hb = hashes_view(tips_seq);
            assert(hv =~= hb.push(event.hash@));
            assert forall|k: Seq<u8>| #[trigger] hv.to_set().contains(k) == hb.to_set().insert(event.hash@).contains(k) by {
                if hv.to_set().contains(k) {
                    let m = choose|m: int| 0 <= m < hv.len() && hv[m] == k;
                    if m < hb.len() {
                        assert(hb[m] == k);
                    }
                }
                if hb.to_set().contains(k) {
                    let m = choose|m: int| 0 <= m < hb.len() && hb[m] == k;
                    assert(hv[m] == k);
                }
                if k == event.hash@ {
                    assert(hv[hb.len() as int] == k);
                }
            }
            assert(self.tip_set() =~= tips_before.insert(event.hash@));
        }
        Ok(())
    }
}


/// Whether `h` is among the hashes of `v`.
fn contains_hash(v: &Vec<crate::crypto::Hash>, h: &crate::crypto::Hash) -> (b: bool)
    ensures
        b == hashes_view(v@).contains(h@),
{
    let mut i: usize = 0;
    while i < v.len()
        invariant
            i <= v@.len(),
            forall|j: int| 0 <= j < i ==> v@[j]@ != h@,
        decreases v@.len() - i,
    {
        if hash_eq(&v[i], h) {
            assert(hashes_view(v@)[i as int] == h@);
            return true;
        }
        i += 1;
    }
    proof {
        if hashes_view(v@).contains(h@) {
            let k = choose|k: int| 0 <= k < hashes_view(v@).len() && hashes_view(v@)[k] == h@;
            assert(v@[k]@ == h@);
        }
    }
    false
}

/// Law: the parents of an ancestor of `y` are ancestors of `y`.
pub proof fn lemma_parent_ancestor(evs: Seq<Event>, i: int, y: Seq<u8>)
    requires
        0 <= i < evs.len(),
        ancestor(evs, evs[i].hash@, y),
    ensures
        evs[i].self_parent@ != no_parent() ==> ancestor(evs, evs[i].self_parent@, y),
        evs[i].other_parent@ != no_parent() ==> ancestor(evs, evs[i].other_parent@, y),
{
    assert forall|s: Set<Seq<u8>>| s.contains(y) && parent_closed(evs, s) implies
        (evs[i].self_parent@ != no_parent() ==> s.contains(evs[i].self_parent@))
        && (evs[i].other_parent@ != no_parent() ==> s.contains(evs[i].other_parent@)) by {
        assert(s.contains(evs[i].hash@));
    }
}

impl Dag {
    // ── Queries ────────────────────────────────────────────────────────

    /// Get an event by hash.
    pub fn get(&self, hash: &crate::crypto::Hash) -> (r: Option<&Event>)
        requires
            self.wf(),
        ensures
            match index_of(self.events(), hash@) {
                None => r is None,
                Some(i) => r matches Some(e) && *e == self.events()[i],
            },
    {
        match self.find(hash) {
            Some(i) => Some(&self.events[i]),
            None => None,
        }
    }

    /// Total number of events in the DAG.
    pub fn len(&self) -> (n: usize)
        ensures
            n == self.events().len(),
    {
        self.events.len()
    }

    /// Whether the DAG has no events.
    pub fn is_empty(&self) -> (b: bool)
        ensures
            b == (self.events().len() == 0),
    {
        self.events.len() == 0
    }

    /// The tip hashes (events not yet referenced as parents).
    pub fn tips(&self) -> (t: Vec<crate::crypto::Hash>)
        ensures
            hashes_view(t@).to_set() == self.tip_set(),
    {
        vstd::slice::slice_to_vec(self.tips.as_slice())
    }

    /// All event hashes created by this address, in insertion order.
    pub fn events_by_creator(&self, creator: &Address) -> (hs: Vec<crate::crypto::Hash>)
        ensures
            hashes_view(hs@) == creator_hashes(self.events(), creator@),
    {
        let mut hs: Vec<crate::crypto::Hash> = Vec::new();
        let mut i: usize = 0;
        while i < self.events.len()
            invariant
                i <= self.events@.len(),
                hashes_view(hs@) == creator_hashes(self.events@.subrange(0, i as int), creator@),
            decreases self.events@.len() - i,
        {
            let ghost before = hs@;
            proof {
                let sub = self.events@.subrange(0, i + 1);
                assert(sub.drop_last() =~= self.events@.subrange(0, i as int));
            }
            if bytes_eq(&self.events[i].creator, creator) {
                hs.push(self.events[i].hash);
                assert(hashes_view(hs@) =~= hashes_view(before).push(self.events@[i as int].hash@));
            }
            i += 1;
        }
        proof {
            assert(self.events@.subrange(0, i as int) =~= self.events@);
        }
        hs
    }

    /// The latest event created by this address.
    pub fn latest_event(&self, creator: &Address) -> (r: Option<&Event>)
        ensures
            r is None <==> (forall|i: int| 0 <= i < self.events().len() ==> self.events()[i].creator@ != creator@),
            r matches Some(e) ==> exists|i: int|
                0 <= i < self.events().len() && *e == self.events()[i] && e.creator@ == creator@
                    && forall|j: int| i < j < self.events().len() ==> self.events()[j].creator@ != creator@,
    {
        let mut i: usize = self.events.len();
        while i > 0
            invariant
                i <= self.events@.len(),
                forall|j: int| i <= j < self.events@.len() ==> self.events@[j].creator@ != creator@,
            decreases i,
        {
            i = i - 1;
            if bytes_eq(&self.events[i].creator, creator) {
                return Some(&self.events[i]);
            }
        }
        None
    }

    /// Check whether event `x` is an ancestor of event `y` (or `y` itself),
    /// searching backwards from `y` through parent links.
    pub fn is_ancestor(&self, x: &crate::crypto::Hash, y: &crate::crypto::Hash) -> (r: bool)
        requires
            self.wf(),
        ensures
            r == ancestor(self.events(), x@, y@),
    {
        let ghost evs = self.events();
        if hash_eq(x, y) {
            return true;
        }
        let zero = [0u8; 32];
        assert(zero@ =~= no_parent());
        let mut visited: Vec<crate::crypto::Hash> = Vec::new();
        let mut queue: Vec<crate::crypto::Hash> = Vec::new();
        queue.push(*y);
        proof {
            assert(hashes_view(queue@)[0] == y@);
            assert(ancestor(evs, y@, y@));
            lemma_count_le(evs, hashes_view(visited@));
        }
        while queue.len() > 0
            invariant
                self.wf(),
                evs == self.events(),
                x@ != y@,
                zero@ == no_parent(),
                forall|k: int| 0 <= k < queue@.len() ==> ancestor(evs, #[trigger] queue@[k]@, y@),
                forall|k: int| 0 <= k < visited@.len() ==> ancestor(evs, #[trigger] visited@[k]@, y@),
                forall|k: int| 0 <= k < visited@.len() ==> #[trigger] visited@[k]@ != x@,
                forall|a: int, b: int| 0 <= a < b < visited@.len() ==> visited@[a]@ != visited@[b]@,
                hashes_view(visited@).contains(y@) || hashes_view(queue@).contains(y@),
                forall|k: int, i: int|
                    0 <= k < visited@.len() && 0 <= i < evs.len() && #[trigger] evs[i].hash@ == #[trigger] visited@[k]@ ==> {
                        &&& (evs[i].self_parent@ != no_parent() ==> hashes_view(visited@).contains(evs[i].self_parent@)
                            || hashes_view(queue@).contains(evs[i].self_parent@))
                        &&& (evs[i].other_parent@ != no_parent() ==> hashes_view(visited@).contains(evs[i].other_parent@)
                            || hashes_view(queue@).contains(evs[i].other_parent@))
                    },
                count_visited(evs, hashes_view(visited@)) <= evs.len(),
            decreases evs.len() - count_visited(evs, hashes_view(visited@)), queue@.len(),
        {
            let ghost q0 = queue@;
            let ghost v0 = visited@;
            let current = match queue.pop() {
                Some(c) => c,
                None => {
                    return false;
                },
            };
            proof {
                assert(q0 == queue@.push(current));
                assert(ancestor(evs, current@, y@)) by {
                    assert(q0[q0.len() - 1] == current);
                }
                assert forall|h: Seq<u8>| hashes_view(q0).contains(h) implies hashes_view(queue@).contains(h) || h == current@ by {
                    let m = choose|m: int| 0 <= m < hashes_view(q0).len() && hashes_view(q0)[m] == h;
                    if m < queue@.len() {
                        assert(hashes_view(queue@)[m] == h);
                    }
                }
            }
            if hash_eq(&current, x) {
                return true;
            }
            if contains_hash(&visited, &current) {
                continue;
            }
            visited.push(current);
            proof {
                assert forall|k: int| 0 <= k < v0.len() implies #[trigger] v0[k]@ != current@ by {
                    if v0[k]@ == current@ {
                        assert(hashes_view(v0)[k] == current@);
                    }
                }
                assert(hashes_view(visited@) =~= hashes_view(v0).push(current@));
                lemma_count_push(evs, hashes_view(v0), current@);
                lemma_count_le(evs, hashes_view(visited@));
                assert forall|h: Seq<u8>| hashes_view(v0).contains(h) implies hashes_view(visited@).contains(h) by {
                    let m = choose|m: int| 0 <= m < hashes_view(v0).len() && hashes_view(v0)[m] == h;
                    assert(hashes_view(visited@)[m] == h);
                }
                assert(hashes_view(visited@).contains(current@)) by {
                    assert(hashes_view(visited@)[v0.len() as int] == current@);
                }
            }
            match self.find(&current) {
                Some(i) => {
                    let ev = &self.events[i];
                    proof { lemma_parent_ancestor(evs, i as int, y@); }
                    let ghost q1 = queue@;
                    if !hash_eq(&ev.self_parent, &zero) {
                        queue.push(ev.self_parent);
                    }
                    if !hash_eq(&ev.other_parent, &zero) {
                        queue.push(ev.other_parent);
                    }
                    proof {
                        assert forall|h: Seq<u8>| hashes_view(q1).contains(h) implies hashes_view(queue@).contains(h) by {
                            let m = choose|m: int| 0 <= m < hashes_view(q1).len() && hashes_view(q1)[m] == h;
                            assert(hashes_view(queue@)[m] == h);
                        }
                        if ev.self_parent@ != no_parent() {
                            assert(hashes_view(queue@)[q1.len() as int] == ev.self_parent@);
                        }
                        if ev.other_parent@ != no_parent() {
                            assert(hashes_view(queue@)[queue@.len() - 1] == ev.other_parent@);
                        }
                        assert forall|k: int, j: int|
                            0 <= k < visited@.len() && 0 <= j < evs.len() && #[trigger] evs[j].hash@ == #[trigger] visited@[k]@ implies {
                                &&& (evs[j].self_parent@ != no_parent() ==> hashes_view(visited@).contains(evs[j].self_parent@)
                                    || hashes_view(queue@).contains(evs[j].self_parent@))
                                &&& (evs[j].other_parent@ != no_parent() ==> hashes_view(visited@).contains(evs[j].other_parent@)
                                    || hashes_view(queue@).contains(evs[j].other_parent@))
                            } by {
                            if k == v0.len() {
                                assert(j == i as int) by {
                                    if j != i {
                                        assert(evs[j].hash@ != evs[i as int].hash@);
                                    }
                                }
                            } else {
                                assert(visited@[k] == v0[k]);
                            }
                        }
                    }
                },
                None => {
                    proof {
                        assert forall|k: int, j: int|
                            0 <= k < visited@.len() && 0 <= j < evs.len() && #[trigger] evs[j].hash@ == #[trigger] visited@[k]@ implies {
                                &&& (evs[j].self_parent@ != no_parent() ==> hashes_view(visited@).contains(evs[j].self_parent@)
                                    || hashes_view(queue@).contains(evs[j].self_parent@))
                                &&& (evs[j].other_parent@ != no_parent() ==> hashes_view(visited@).contains(evs[j].other_parent@)
                                    || hashes_view(queue@).contains(evs[j].other_parent@))
                            } by {
                            if k == v0.len() {
                                assert(has_hash(evs, current@));
                            } else {
                                assert(visited@[k] == v0[k]);
                            }
                        }
                    }
                },
            }
        }
        proof {
            let s = hashes_view(visited@).to_set();
            assert(s.contains(y@)) by {
                if hashes_view(queue@).contains(y@) {
                    let m = choose|m: int| 0 <= m < hashes_view(queue@).len() && hashes_view(queue@)[m] == y@;
                }
            }
            assert(parent_closed(evs, s)) by {
                assert forall|i: int| 0 <= i < evs.len() && #[trigger] s.contains(evs[i].hash@) implies {
                    &&& (evs[i].self_parent@ != no_parent() ==> s.contains(evs[i].self_parent@))
                    &&& (evs[i].other_parent@ != no_parent() ==> s.contains(evs[i].other_parent@))
                } by {
                    let k = choose|k: int| 0 <= k < hashes_view(visited@).len() && hashes_view(visited@)[k] == evs[i].hash@;
                    assert(evs[i].hash@ == visited@[k]@);
                    if evs[i].self_parent@ != no_parent() && hashes_view(queue@).contains(evs[i].self_parent@) {
                        let m = choose|m: int| 0 <= m < hashes_view(queue@).len() && hashes_view(queue@)[m] == evs[i].self_parent@;
                    }
                    if evs[i].other_parent@ != no_parent() && hashes_view(queue@).contains(evs[i].other_parent@) {
                        let m = choose|m: int| 0 <= m < hashes_view(queue@).len() && hashes_view(queue@)[m] == evs[i].other_parent@;
                    }
                }
            }
            assert(!s.contains(x@)) by {
                if s.contains(x@) {
                    let k = choose|k: int| 0 <= k < hashes_view(visited@).len() && hashes_view(visited@)[k] == x@;
                    assert(visited@[k]@ == x@);
                }
            }
        }
        false
    }

    /// Whether some event by `creator` is seen by `x` and sees `y`.
    fn seen_through(&self, x: &crate::crypto::Hash, y: &crate::crypto::Hash, creator: &Address) -> (b: bool)
        requires
            self.wf(),
        ensures
            b == seen_via(self.events(), x@, y@, creator@),
    {
        let mut i: usize = 0;
        while i < self.events.len()
            invariant
                self.wf(),
                i <= self.events@.len(),
                forall|j: int| 0 <= j < i ==> !(#[trigger] self.events@[j].creator@ == creator@
                    && ancestor(self.events@, self.events@[j].hash@, x@) && ancestor(self.events@, y@, self.events@[j].hash@)),
            decreases self.events@.len() - i,
        {
            let ev = &self.events[i];
            if bytes_eq(&ev.creator, creator) && self.is_ancestor(&ev.hash, x) && self.is_ancestor(y, &ev.hash) {
                return true;
            }
            i += 1;
        }
        false
    }

    /// Whether `x` strongly sees `y`: after each listed validator, count the
    /// validators with an event that `x` reaches and that reaches `y`, and
    /// answer yes once the count reaches `supermajority_count`.
    pub fn strongly_sees(
        &self,
        x: &crate::crypto::Hash,
        y: &crate::crypto::Hash,
        validators: &[Address],
        supermajority_count: usize,
    ) -> (b: bool)
        requires
            self.wf(),
        ensures
            b == spec_strongly_sees(self.events(), x@, y@, addresses_view(validators@), supermajority_count as nat),
    {
        let ghost evs = self.events();
        let ghost cs = addresses_view(validators@);
        let mut count: usize = 0;
        let mut k: usize = 0;
        while k < validators.len()
            invariant
                self.wf(),
                evs == self.events(),
                cs == addresses_view(validators@),
                k <= validators@.len(),
                count <= k,
                count == seers(evs, x@, y@, cs.subrange(0, k as int)),
                k > 0 ==> count < supermajority_count,
            decreases validators@.len() - k,
        {
            let found = self.seen_through(x, y, &validators[k]);
            if found {
                count += 1;
            }
            k += 1;
            proof {
                let sub = cs.subrange(0, k as int);
                assert(sub.drop_last() =~= cs.subrange(0, k - 1));
                assert(sub.last() == validators@[k - 1]@);
            }
            if count >= supermajority_count {
                proof {
                    lemma_seers_prefix(evs, x@, y@, cs, k as int);
                }
                return true;
            }
        }
        proof {
            assert(cs.subrange(0, k as int) =~= cs);
        }
        false
    }

    /// All events, in insertion order.
    pub fn all_events(&self) -> (r: Vec<&Event>)
        ensures
            deref_events(r@) == self.events(),
    {
        let mut all: Vec<&Event> = Vec::new();
        let mut i: usize = 0;
        while i < self.events.len()
            invariant
                i <= self.events@.len(),
                deref_events(all@) == self.events@.subrange(0, i as int),
            decreases self.events@.len() - i,
        {
            let ghost before = all@;
            all.push(&self.events[i]);
            proof {
                assert(all@ == before.push(&self.events@[i as int]));
                assert(deref_events(all@) =~= deref_events(before).push(self.events@[i as int]));
                assert(self.events@.subrange(0, i + 1) =~= self.events@.subrange(0, i as int).push(self.events@[i as int]));
            }
            i += 1;
        }
        proof {
            assert(self.events@.subrange(0, i as int) =~= self.events@);
        }
        all
    }

    /// All events ordered by timestamp, equal timestamps in insertion order:
    /// the order in which consensus assigns rounds.
    pub fn events_by_time(&self) -> (r: Vec<&Event>)
        ensures
            deref_events(r@) == by_time(self.events()),
    {
        let mut all: Vec<&Event> = Vec::new();
        let mut i: usize = 0;
        while i < self.events.len()
            invariant
                i <= self.events@.len(),
                deref_events(all@) == by_time(self.events@.subrange(0, i as int)),
            decreases self.events@.len() - i,
        {
            let e = &self.events[i];
            let ghost before = deref_events(all@);
            let mut j: usize = all.len();
            while j > 0 && all[j - 1].timestamp > e.timestamp
                invariant
                    j <= all@.len(),
                    before == deref_events(all@),
                    forall|m: int| j <= m < all@.len() ==> all@[m].timestamp > e.timestamp,
                decreases j,
            {
                j -= 1;
            }
            proof {
                lemma_insert_by_time_at(before, *e, j as int);
            }
            all.insert(j, e);
            proof {
                let sub = self.events@.subrange(0, i + 1);
                assert(sub.drop_last() =~= self.events@.subrange(0, i as int));
                assert(deref_events(all@) =~= before.subrange(0, j as int).push(*e) + before.subrange(j as int, before.len() as int));
            }
            i += 1;
        }
        proof {
            assert(self.events@.subrange(0, i as int) =~= self.events@);
        }
        all
    }

    /// Position of the event with this hash, if any.
    pub(crate) fn position(&self, hash: &crate::crypto::Hash) -> (r: Option<usize>)
        requires
            self.wf(),
        ensures
            r is None <==> index_of(self.events(), hash@) is None,
            r matches Some(i) ==> i < self.events().len() && self.events()[i as int].hash@ == hash@
                && index_of(self.events(), hash@) == Some(i as int),
    {
        self.find(hash)
    }

    /// The event at position `i`.
    pub(crate) fn event_at(&self, i: usize) -> (e: &Event)
        requires
            i < self.events().len(),
        ensures
            *e == self.events()[i as int],
    {
        &self.events[i]
    }

    /// Get an event by hash for changing it in place. The DAG's other events
    /// and its tips stay as they are; whatever is written through the
    /// reference replaces that event.
    pub fn get_mut(&mut self, hash: &crate::crypto::Hash) -> (r: Option<&mut Event>)
        requires
            old(self).wf(),
        ensures
            match index_of(old(self).events(), hash@) {
                None => r is None && *final(self) == *old(self),
                Some(i) => r is Some && *r->0 == old(self).events()[i]
                    && final(self).events() == old(self).events().update(i, *final(r->0))
                    && final(self).tip_set() == old(self).tip_set(),
            },
    {
        match self.find(hash) {
            Some(i) => Some(&mut self.events[i]),
            None => None,
        }
    }

    /// Record the round and witness flag of the event at position `i`.
    pub(crate) fn set_round(&mut self, i: usize, round: u64, is_witness: bool)
        requires
            old(self).wf(),
            i < old(self).events().len(),
        ensures
            final(self).wf(),
            final(self).tip_set() == old(self).tip_set(),
            final(self).events() == old(self).events().update(i as int, with_round(old(self).events()[i as int], round, is_witness)),
    {
        let ghost before = self.events@;
        self.events[i].round = round;
        self.events[i].is_witness = is_witness;
        proof { lemma_meta_update_wf(before, self.events@, self.tips@, i as int); }
        assert(self.events@ =~= before.update(i as int, with_round(before[i as int], round, is_witness)));
    }

    /// Record the fame decision of the event at position `i`.
    pub(crate) fn set_fame(&mut self, i: usize, famous: bool)
        requires
            old(self).wf(),
            i < old(self).events().len(),
        ensures
            final(self).wf(),
            final(self).tip_set() == old(self).tip_set(),
            final(self).events() == old(self).events().update(i as int, with_fame(old(self).events()[i as int], famous)),
    {
        let ghost before = self.events@;
        self.events[i].is_famous = Some(famous);
        proof { lemma_meta_update_wf(before, self.events@, self.tips@, i as int); }
        assert(self.events@ =~= before.update(i as int, with_fame(before[i as int], famous)));
    }

    /// Record the round received and consensus timestamp of the event at
    /// position `i`.
    pub(crate) fn set_received(&mut self, i: usize, round: u64, timestamp: u64)
        requires
            old(self).wf(),
            i < old(self).events().len(),
        ensures
            final(self).wf(),
            final(self).tip_set() == old(self).tip_set(),
            final(self).events() == old(self).events().update(i as int, with_received(old(self).events()[i as int], round, timestamp)),
    {
        let ghost before = self.events@;
        self.events[i].round_received = Some(round);
        self.events[i].consensus_timestamp = timestamp;
        proof { lemma_meta_update_wf(before, self.events@, self.tips@, i as int); }
        assert(self.events@ =~= before.update(i as int, with_received(before[i as int], round, timestamp)));
    }
}

/// Law: every event is its own ancestor, and ancestry is transitive.
pub proof fn lemma_ancestor_preorder(evs: Seq<Event>, x: Seq<u8>, y: Seq<u8>, z: Seq<u8>)
    ensures
        ancestor(evs, x, x),
        ancestor(evs, x, y) && ancestor(evs, y, z) ==> ancestor(evs, x, z),
{
}

/// Step `k` of `p` follows a parent link: some event has hash `p[k]` and
/// names `p[k + 1]` as a non-zero parent.
pub open spec fn parent_step(evs: Seq<Event>, p: Seq<Seq<u8>>, k: int) -> bool {
    exists|i: int|
        0 <= i < evs.len() && #[trigger] evs[i].hash@ == p[k] && p[k + 1] != no_parent()
            && (p[k + 1] == evs[i].self_parent@ || p[k + 1] == evs[i].other_parent@)
}

/// `p` is a path that starts at `y` and follows parent links to `x`.
pub open spec fn parent_path(evs: Seq<Event>, p: Seq<Seq<u8>>, y: Seq<u8>, x: Seq<u8>) -> bool {
    &&& p.len() >= 1
    &&& p[0] == y
    &&& p.last() == x
    &&& forall|k: int| 0 <= k < p.len() - 1 ==> #[trigger] parent_step(evs, p, k)
}

/// `x` is reached from `y` by following parent links.
pub open spec fn reaches(evs: Seq<Event>, y: Seq<u8>, x: Seq<u8>) -> bool {
    exists|p: Seq<Seq<u8>>| #[trigger] parent_path(evs, p, y, x)
}

proof fn lemma_path_in_closed(evs: Seq<Event>, p: Seq<Seq<u8>>, y: Seq<u8>, x: Seq<u8>, s: Set<Seq<u8>>, n: int)
    requires
        parent_path(evs, p, y, x),
        s.contains(y),
        parent_closed(evs, s),
        0 <= n < p.len(),
    ensures
        s.contains(p[n]),
    decreases n,
{
    if n > 0 {
        lemma_path_in_closed(evs, p, y, x, s, n - 1);
        assert(parent_step(evs, p, n - 1));
        let i = choose|i: int|
            0 <= i < evs.len() && #[trigger] evs[i].hash@ == p[n - 1] && p[n] != no_parent()
                && (p[n] == evs[i].self_parent@ || p[n] == evs[i].other_parent@);
        assert(s.contains(evs[i].hash@));
    }
}

/// Law: `ancestor` is reachability. `x` is an ancestor of `y` exactly when
/// a path from `y` that follows parent links (self or other, never the zero
/// hash) ends at `x`.
pub proof fn lemma_ancestor_is_reachability(evs: Seq<Event>, x: Seq<u8>, y: Seq<u8>)
    ensures
        ancestor(evs, x, y) <==> reaches(evs, y, x),
{
    if reaches(evs, y, x) {
        let p = choose|p: Seq<Seq<u8>>| #[trigger] parent_path(evs, p, y, x);
        assert forall|s: Set<Seq<u8>>| s.contains(y) && parent_closed(evs, s) implies s.contains(x) by {
            lemma_path_in_closed(evs, p, y, x, s, p.len() - 1);
        }
    }
    if ancestor(evs, x, y) {
        let s = Set::new(|h: Seq<u8>| reaches(evs, y, h));
        let p0 = seq![y];
        assert(parent_path(evs, p0, y, y));
        assert(s.contains(y));
        assert forall|i: int|
            0 <= i < evs.len() && #[trigger] s.contains(evs[i].hash@) implies {
                &&& (evs[i].self_parent@ != no_parent() ==> s.contains(evs[i].self_parent@))
                &&& (evs[i].other_parent@ != no_parent() ==> s.contains(evs[i].other_parent@))
            } by {
            let h = evs[i].hash@;
            assert(reaches(evs, y, h));
            let p = choose|p: Seq<Seq<u8>>| #[trigger] parent_path(evs, p, y, h);
            if evs[i].self_parent@ != no_parent() {
                let q = p.push(evs[i].self_parent@);
                assert forall|k: int| 0 <= k < q.len() - 1 implies #[trigger] parent_step(evs, q, k) by {
                    if k < p.len() - 1 {
                        assert(parent_step(evs, p, k));
                        assert(q[k] == p[k] && q[k + 1] == p[k + 1]);
                    } else {
                        assert(q[k] == h && q[k + 1] == evs[i].self_parent@);
                    }
                }
                assert(parent_path(evs, q, y, evs[i].self_parent@));
            }
            if evs[i].other_parent@ != no_parent() {
                let q = p.push(evs[i].other_parent@);
                assert forall|k: int| 0 <= k < q.len() - 1 implies #[trigger] parent_step(evs, q, k) by {
                    if k < p.len() - 1 {
                        assert(parent_step(evs, p, k));
                        assert(q[k] == p[k] && q[k + 1] == p[k + 1]);
                    } else {
                        assert(q[k] == h && q[k + 1] == evs[i].other_parent@);
                    }
                }
                assert(parent_path(evs, q, y, evs[i].other_parent@));
            }
        }
        assert(s.contains(x));
    }
}

/// The listed creators through whose events `x` reaches `y`.
pub open spec fn seeing_creators(evs: Seq<Event>, x: Seq<u8>, y: Seq<u8>, creators: Seq<Seq<u8>>) -> Set<Seq<u8>> {
    creators.to_set().filter(|c: Seq<u8>| seen_via(evs, x, y, c))
}

/// Law: over a list of distinct creators, the count that `strongly_sees`
/// compares with its threshold is the number of distinct listed creators
/// with an event that `x` reaches and that reaches `y`; it never exceeds
/// the number of creators listed.
pub proof fn lemma_seers_counts_creators(evs: Seq<Event>, x: Seq<u8>, y: Seq<u8>, creators: Seq<Seq<u8>>)
    requires
        creators.no_duplicates(),
    ensures
        seers(evs, x, y, creators) == seeing_creators(evs, x, y, creators).len(),
        seeing_creators(evs, x, y, creators).finite(),
        seers(evs, x, y, creators) <= creators.len(),
    decreases creators.len(),
{
    let cs = creators;
    if cs.len() == 0 {
        assert(seeing_creators(evs, x, y, cs) =~= Set::<Seq<u8>>::empty());
    } else {
        let init = cs.drop_last();
        let c = cs.last();
        assert(init.no_duplicates()) by {
            assert forall|a: int, b: int| 0 <= a < init.len() && 0 <= b < init.len() && a != b implies init[a] != init[b] by {
                assert(init[a] == cs[a] && init[b] == cs[b]);
            }
        }
        lemma_seers_counts_creators(evs, x, y, init);
        assert(!init.to_set().contains(c)) by {
            if init.to_set().contains(c) {
                assert(init.contains(c));
                let a = choose|a: int| 0 <= a < init.len() && init[a] == c;
                assert(cs[a] == cs[cs.len() - 1]);
            }
        }
        assert(cs =~= init.push(c));
        assert(cs.to_set() =~= init.to_set().insert(c)) by {
            assert forall|h: Seq<u8>| cs.to_set().contains(h) <==> init.to_set().contains(h) || h == c by {
                if cs.to_set().contains(h) {
                    assert(cs.contains(h));
                    let a = choose|a: int| 0 <= a < cs.len() && cs[a] == h;
                    if a < cs.len() - 1 {
                        assert(init[a] == h);
                        assert(init.contains(h));
                    }
                }
                if init.to_set().contains(h) {
                    assert(init.contains(h));
                    let a = choose|a: int| 0 <= a < init.len() && init[a] == h;
                    assert(cs[a] == h);
                    assert(cs.contains(h));
                }
                if h == c {
                    assert(cs[cs.len() - 1] == h);
                    assert(cs.contains(h));
                }
            }
        }
        let prev = seeing_creators(evs, x, y, init);
        let now = seeing_creators(evs, x, y, cs);
        if seen_via(evs, x, y, c) {
            assert(now =~= prev.insert(c));
            assert(!prev.contains(c));
        } else {
            assert(now =~= prev);
        }
    }
}

/// In a well-formed DAG no two events share a hash.
pub proof fn lemma_hashes_distinct(d: &Dag, i: int, j: int)
    requires
        d.wf(),
        0 <= i < d.events().len(),
        0 <= j < d.events().len(),
        d.events()[i].hash@ == d.events()[j].hash@,
    ensures
        i == j,
{
}

/// In a well-formed DAG every non-zero parent is present.
pub proof fn lemma_parents_present(d: &Dag, i: int)
    requires
        d.wf(),
        0 <= i < d.events().len(),
    ensures
        d.events()[i].self_parent@ != no_parent() ==> has_hash(d.events(), d.events()[i].self_parent@),
        d.events()[i].other_parent@ != no_parent() ==> has_hash(d.events(), d.events()[i].other_parent@),
{
    let p = d.events()[i].self_parent@;
}

/// The events behind a list of references.
pub open spec fn deref_events(s: Seq<&Event>) -> Seq<Event> {
    s.map_values(|e: &Event| *e)
}

/// The event with a new round and witness flag.
pub open spec fn with_round(e: Event, round: u64, is_witness: bool) -> Event {
    Event { round: round, is_witness: is_witness, ..e }
}

/// The event with a fame decision.
pub open spec fn with_fame(e: Event, famous: bool) -> Event {
    Event { is_famous: Some(famous), ..e }
}

/// The event with its round received and consensus timestamp.
pub open spec fn with_received(e: Event, round: u64, timestamp: u64) -> Event {
    Event { round_received: Some(round), consensus_timestamp: timestamp, ..e }
}

/// Hash, parents and creator of two events agree.
pub open spec fn same_links(a: Event, b: Event) -> bool {
    &&& a.hash@ == b.hash@
    &&& a.self_parent@ == b.self_parent@
    &&& a.other_parent@ == b.other_parent@
    &&& a.creator@ == b.creator@
}

/// Changing an event's consensus fields keeps the DAG well formed.
proof fn lemma_meta_update_wf(before: Seq<Event>, after: Seq<Event>, tips: Seq<crate::crypto::Hash>, i: int)
    requires
        distinct_hashes(before),
        parents_present(before),
        forall|k: int| 0 <= k < tips.len() ==> has_hash(before, #[trigger] tips[k]@),
        0 <= i < before.len(),
        after.len() == before.len(),
        forall|k: int| 0 <= k < before.len() && k != i ==> after[k] == before[k],
        same_links(after[i], before[i]),
    ensures
        distinct_hashes(after),
        parents_present(after),
        forall|k: int| 0 <= k < tips.len() ==> has_hash(after, #[trigger] tips[k]@),
        forall|h: Seq<u8>| has_hash(after, h) == has_hash(before, h),
{
    assert forall|h: Seq<u8>| has_hash(after, h) == has_hash(before, h) by {
        if has_hash(after, h) {
            let k = choose|k: int| 0 <= k < after.len() && after[k].hash@ == h;
            assert(before[k].hash@ == h);
        }
        if has_hash(before, h) {
            let k = choose|k: int| 0 <= k < before.len() && before[k].hash@ == h;
            assert(after[k].hash@ == h);
        }
    }
    assert forall|a: int, b: int| 0 <= a < b < after.len() implies after[a].hash@ != after[b].hash@ by {
        assert(before[a].hash@ != before[b].hash@);
    }
    assert forall|k: int| 0 <= k < after.len() implies {
        &&& (#[trigger] after[k].self_parent@ != no_parent() ==> has_hash(after, after[k].self_parent@))
        &&& (after[k].other_parent@ != no_parent() ==> has_hash(after, after[k].other_parent@))
    } by {
        assert(before[k].self_parent@ != no_parent() ==> has_hash(before, before[k].self_parent@));
    }
}

/// Counting over a prefix of the creators never exceeds the whole count.
proof fn lemma_seers_prefix(evs: Seq<Event>, x: Seq<u8>, y: Seq<u8>, cs: Seq<Seq<u8>>, k: int)
    requires
        0 < k <= cs.len(),
    ensures
        seers(evs, x, y, cs.subrange(0, k)) <= seers(evs, x, y, cs),
        cs.len() > 0,
    decreases cs.len(),
{
    if k < cs.len() {
        lemma_seers_prefix(evs, x, y, cs.drop_last(), k);
        assert(cs.drop_last().subrange(0, k) =~= cs.subrange(0, k));
    } else {
        assert(cs.subrange(0, k) =~= cs);
    }
}

/// Inserting after the last event with at most the new timestamp.
proof fn lemma_insert_by_time_at(s: Seq<Event>, e: Event, j: int)
    requires
        0 <= j <= s.len(),
        forall|m: int| j <= m < s.len() ==> s[m].timestamp > e.timestamp,
        j > 0 ==> s[j - 1].timestamp <= e.timestamp,
    ensures
        insert_by_time(s, e) == s.subrange(0, j).push(e) + s.subrange(j, s.len() as int),
    decreases s.len(),
{
    if s.len() == 0 {
        assert(s.subrange(0, j).push(e) + s.subrange(j, s.len() as int) =~= seq![e]);
    } else if j == s.len() {
        assert(s.subrange(0, j).push(e) + s.subrange(j, s.len() as int) =~= s.push(e));
    } else {
        let t = s.drop_last();
        lemma_insert_by_time_at(t, e, j);
        assert(t.subrange(0, j).push(e) + t.subrange(j, t.len() as int) + seq![s.last()]
            =~= s.subrange(0, j).push(e) + s.subrange(j, s.len() as int));
    }
}

/// Ordering by time keeps the number of events.
pub proof fn lemma_by_time_len(evs: Seq<Event>)
    ensures
        by_time(evs).len() == evs.len(),
    decreases evs.len(),
{
    if evs.len() > 0 {
        lemma_by_time_len(evs.drop_last());
        lemma_insert_by_time_len(by_time(evs.drop_last()), evs.last());
    }
}

proof fn lemma_insert_by_time_len(s: Seq<Event>, e: Event)
    ensures
        insert_by_time(s, e).len() == s.len() + 1,
    decreases s.len(),
{
    if s.len() > 0 && s.last().timestamp > e.timestamp {
        lemma_insert_by_time_len(s.drop_last(), e);
    }
}

/// Event `e` names `h` as a (non-zero) parent.
pub open spec fn names_parent(e: Event, h: Seq<u8>) -> bool {
    (e.self_parent@ != no_parent() && e.self_parent@ == h) || (e.other_parent@ != no_parent() && e.other_parent@ == h)
}

/// Some event of `evs` names `h` as a (non-zero) parent.
pub open spec fn named_as_parent(evs: Seq<Event>, h: Seq<u8>) -> bool {
    exists|i: int| 0 <= i < evs.len() && #[trigger] names_parent(evs[i], h)
}

/// The tips are exactly the events that no event names as a parent.
pub open spec fn tips_exact(evs: Seq<Event>, tips: Set<Seq<u8>>) -> bool {
    forall|h: Seq<u8>| #[trigger] tips.contains(h) <==> has_hash(evs, h) && !named_as_parent(evs, h)
}

/// The tips after inserting `e` into a DAG with tips `tips`, as `insert`
/// leaves them.
pub open spec fn tips_after(tips: Set<Seq<u8>>, e: Event) -> Set<Seq<u8>> {
    let t1 = if e.self_parent@ != no_parent() { tips.remove(e.self_parent@) } else { tips };
    let t2 = if e.other_parent@ != no_parent() { t1.remove(e.other_parent@) } else { t1 };
    t2.insert(e.hash@)
}

/// Law: the tips are exactly the events that no other event names as a
/// parent. It holds of the empty DAG (no events, no tips), and a successful
/// `insert` keeps it: the new event has a fresh hash and present parents,
/// and `insert` leaves the tips as `tips_after` says.
pub proof fn lemma_insert_keeps_tips_exact(evs: Seq<Event>, tips: Set<Seq<u8>>, e: Event)
    requires
        tips_exact(evs, tips),
        parents_present(evs),
        !has_hash(evs, e.hash@),
        e.self_parent@ != no_parent() ==> has_hash(evs, e.self_parent@),
        e.other_parent@ != no_parent() ==> has_hash(evs, e.other_parent@),
    ensures
        tips_exact(Seq::<Event>::empty(), Set::<Seq<u8>>::empty()),
        tips_exact(evs.push(e), tips_after(tips, e)),
{
    let ev = evs.push(e);
    let nt = tips_after(tips, e);
    assert forall|h: Seq<u8>| #[trigger] nt.contains(h) <==> has_hash(ev, h) && !named_as_parent(ev, h) by {
        // Having a hash in the longer list.
        assert(has_hash(ev, h) <==> has_hash(evs, h) || h == e.hash@) by {
            if has_hash(ev, h) {
                let i = choose|i: int| 0 <= i < ev.len() && ev[i].hash@ == h;
                if i < evs.len() {
                    assert(evs[i] == ev[i]);
                }
            }
            if has_hash(evs, h) {
                let i = choose|i: int| 0 <= i < evs.len() && evs[i].hash@ == h;
                assert(ev[i] == evs[i]);
            }
            if h == e.hash@ {
                assert(ev[evs.len() as int] == e);
            }
        }
        // Being named in the longer list.
        let by_new = names_parent(e, h);
        assert(named_as_parent(ev, h) <==> named_as_parent(evs, h) || by_new) by {
            if named_as_parent(ev, h) {
                let i = choose|i: int| 0 <= i < ev.len() && #[trigger] names_parent(ev[i], h);
                if i < evs.len() {
                    assert(evs[i] == ev[i]);
                }
            }
            if named_as_parent(evs, h) {
                let i = choose|i: int| 0 <= i < evs.len() && #[trigger] names_parent(evs[i], h);
                assert(ev[i] == evs[i]);
            }
            if by_new {
                assert(ev[evs.len() as int] == e);
            }
        }
        // No earlier event names the new hash: its parents are present.
        if h == e.hash@ && named_as_parent(evs, h) {
            let i = choose|i: int| 0 <= i < evs.len() && #[trigger] names_parent(evs[i], h);
            assert(has_hash(evs, h));
        }
    }
}

proof fn lemma_insert_by_time_multiset(sorted: Seq<Event>, e: Event)
    ensures
        insert_by_time(sorted, e).to_multiset() == sorted.to_multiset().insert(e),
    decreases sorted.len(),
{
    broadcast use vstd::seq_lib::to_multiset_build;
    broadcast use vstd::multiset::group_multiset_axioms;
    if sorted.len() == 0 {
        assert(sorted =~= Seq::<Event>::empty());
        assert(seq![e] =~= sorted.push(e));
        assert(sorted.push(e).to_multiset() =~= sorted.to_multiset().insert(e));
    } else {
        let p = sorted.drop_last();
        assert(p.push(sorted.last()) =~= sorted);
        if !(sorted.last().timestamp <= e.timestamp) {
            lemma_insert_by_time_multiset(p, e);
            assert(insert_by_time(p, e).push(sorted.last()).to_multiset()
                =~= insert_by_time(p, e).to_multiset().insert(sorted.last()));
            assert(p.to_multiset().insert(e).insert(sorted.last()) =~= p.to_multiset().insert(sorted.last()).insert(e));
        }
    }
}

/// Ordering by time keeps every event, each as often as it occurs.
pub proof fn lemma_by_time_multiset(evs: Seq<Event>)
    ensures
        by_time(evs).to_multiset() == evs.to_multiset(),
    decreases evs.len(),
{
    broadcast use vstd::seq_lib::to_multiset_build;
    if evs.len() == 0 {
        assert(evs =~= Seq::<Event>::empty());
        assert(by_time(evs) == evs);
    } else {
        let p = evs.drop_last();
        lemma_by_time_multiset(p);
        lemma_insert_by_time_multiset(by_time(p), evs.last());
        assert(p.push(evs.last()) =~= evs);
        assert(p.push(evs.last()).to_multiset() =~= p.to_multiset().insert(evs.last()));
    }
}

} // verus!
