//! The Hashgraph-style asynchronous BFT consensus engine:
//!   1. `divide_rounds` assigns round numbers and witness flags to events;
//!   2. `decide_fame` decides which witnesses are famous;
//!   3. `find_order` gives events a round received and a consensus
//!      timestamp, and orders them;
//!   4. `process` runs the three steps and collects the newly ordered
//!      transaction hashes.

use vstd::prelude::*;
use crate::consensus_types::{ConsensusOutput, Event};
use crate::crypto::Address;
use crate::dag::{
    addresses_view, deref_events, by_time, event_hashes, index_of, lemma_by_time_len, no_parent,
    spec_strongly_sees, with_fame, with_received, with_round, ancestor, Dag, DagError,
};
use crate::keymap::bytes_eq;
use crate::merkle::{hash_eq, hashes_view};

verus! {

/// The main aBFT consensus engine.
pub struct AbftConsensus {
    /// The DAG of events from all validators.
    pub dag: Dag,
    /// Addresses of all validators participating in consensus.
    pub validators: Vec<Address>,
    /// The number of validators required for a supermajority (⌈2n/3⌉).
    pub supermajority: usize,
    /// The highest round that has been fully decided.
    pub last_decided_round: u64,
}

/// ⌈2n/3⌉.
pub open spec fn supermajority_of(n: nat) -> nat {
    ((2 * n + 2) / 3) as nat
}

// ── Rounds ─────────────────────────────────────────────────────────────────

/// How many witnesses of `round` among the first `upto` events `x` strongly
/// sees.
pub open spec fn witness_votes(
    evs: Seq<Event>,
    upto: int,
    x: Seq<u8>,
    round: u64,
    vals: Seq<Seq<u8>>,
    sm: nat,
) -> nat
    decreases upto,
{
    if upto <= 0 {
        0
    } else {
        let e = evs[upto - 1];
        witness_votes(evs, upto - 1, x, round, vals, sm) + if e.round == round && e.is_witness
            && spec_strongly_sees(evs, x, e.hash@, vals, sm) {
            1nat
        } else {
            0nat
        }
    }
}

/// The round of the event at `i`: 1 without a self-parent; otherwise the
/// self-parent's round, plus one when the event strongly sees at least a
/// supermajority of that round's witnesses.
pub open spec fn next_round(evs: Seq<Event>, i: int, vals: Seq<Seq<u8>>, sm: nat) -> int {
    let e = evs[i];
    if e.self_parent@ == no_parent() {
        1
    } else {
        let pr: u64 = match index_of(evs, e.self_parent@) {
            Some(j) => evs[j].round,
            None => 1,
        };
        if witness_votes(evs, evs.len() as int, e.hash@, pr, vals, sm) >= sm {
            pr + 1
        } else {
            pr as int
        }
    }
}

/// No other witness by the event's creator has this round.
pub open spec fn first_in_round(evs: Seq<Event>, i: int, round: int) -> bool {
    !exists|j: int|
        0 <= j < evs.len() && #[trigger] evs[j].creator@ == evs[i].creator@ && evs[j].round == round
            && evs[j].hash@ != evs[i].hash@ && evs[j].is_witness
}

/// One step of round assignment, for the event with hash `h`.
pub open spec fn assign_round(evs: Seq<Event>, h: Seq<u8>, vals: Seq<Seq<u8>>, sm: nat) -> Seq<Event> {
    match index_of(evs, h) {
        None => evs,
        Some(i) => {
            let r = next_round(evs, i, vals, sm);
            evs.update(i, with_round(evs[i], r as u64, first_in_round(evs, i, r)))
        },
    }
}

/// Round assignment for the events with hashes `hs`, in that order.
pub open spec fn assign_rounds(evs: Seq<Event>, hs: Seq<Seq<u8>>, vals: Seq<Seq<u8>>, sm: nat) -> Seq<Event>
    decreases hs.len(),
{
    if hs.len() == 0 {
        evs
    } else {
        assign_round(assign_rounds(evs, hs.drop_last(), vals, sm), hs.last(), vals, sm)
    }
}

/// Rounds leave room to grow by one per remaining step.
pub open spec fn rounds_below(evs: Seq<Event>, room: int) -> bool {
    forall|j: int| 0 <= j < evs.len() ==> #[trigger] evs[j].round + room < u64::MAX
}

impl AbftConsensus {
    /// A consensus engine for the given validators, with an empty DAG.
    pub fn new(validators: Vec<Address>) -> (c: Self)
        ensures
            c.dag.wf(),
            c.dag.events() == Seq::<Event>::empty(),
            c.validators@ == validators@,
            c.supermajority == supermajority_of(validators@.len()),
            c.last_decided_round == 0,
    {
        let n = validators.len();
        let supermajority = n - n / 3;
        assert(supermajority == supermajority_of(n as nat)) by (nonlinear_arith)
            requires
                supermajority == n - n / 3,
        {
        }
        Self { dag: Dag::new(), validators, supermajority, last_decided_round: 0 }
    }

    /// Add an event to the consensus DAG (see `Dag::insert`).
    pub fn add_event(&mut self, event: Event) -> (r: Result<(), DagError>)
        requires
            old(self).dag.wf(),
        ensures
            final(self).dag.wf(),
            r is Ok <==> !crate::dag::has_hash(old(self).dag.events(), event.hash@) && (event.self_parent@ != no_parent()
                ==> crate::dag::has_hash(old(self).dag.events(), event.self_parent@)) && (event.other_parent@ != no_parent()
                ==> crate::dag::has_hash(old(self).dag.events(), event.other_parent@)),
            crate::dag::has_hash(old(self).dag.events(), event.hash@) ==> r == Err::<(), DagError>(DagError::DuplicateEvent),
            !crate::dag::has_hash(old(self).dag.events(), event.hash@) && event.self_parent@ != no_parent()
                && !crate::dag::has_hash(old(self).dag.events(), event.self_parent@) ==> r == Err::<(), DagError>(DagError::MissingSelfParent),
            r is Ok ==> final(self).dag.events() == old(self).dag.events().push(event),
            r is Err ==> final(self).dag.events() == old(self).dag.events(),
            final(self).validators@ == old(self).validators@,
            final(self).supermajority == old(self).supermajority,
            final(self).last_decided_round == old(self).last_decided_round,
    {
        self.dag.insert(event)
    }

    /// How many witnesses of `round` the event with hash `x` strongly sees.
    fn count_witness_votes(&self, x: &crate::crypto::Hash, round: u64) -> (n: usize)
        requires
            self.dag.wf(),
        ensures
            n == witness_votes(self.dag.events(), self.dag.events().len() as int, x@, round,
                addresses_view(self.validators@), self.supermajority as nat),
    {
        let ghost evs = self.dag.events();
        let mut count: usize = 0;
        let mut j: usize = 0;
        while j < self.dag.len()
            invariant
                self.dag.wf(),
                evs == self.dag.events(),
                j <= evs.len(),
                count <= j,
                count == witness_votes(evs, j as int, x@, round, addresses_view(self.validators@), self.supermajority as nat),
            decreases evs.len() - j,
        {
            let e = self.dag.event_at(j);
            if e.round == round && e.is_witness
                && self.dag.strongly_sees(x, &e.hash, self.validators.as_slice(), self.supermajority) {
                count += 1;
            }
            j += 1;
        }
        count
    }

    /// The round of the event at position `i` (see `next_round`).
    fn round_for(&self, i: usize) -> (r: u64)
        requires
            self.dag.wf(),
            i < self.dag.events().len(),
            rounds_below(self.dag.events(), 1),
        ensures
            r == next_round(self.dag.events(), i as int, addresses_view(self.validators@), self.supermajority as nat),
    {
        let e = self.dag.event_at(i);
        let zero = [0u8; 32];
        assert(zero@ =~= no_parent());
        if hash_eq(&e.self_parent, &zero) {
            return 1;
        }
        let pr: u64 = match self.dag.position(&e.self_parent) {
            Some(j) => self.dag.event_at(j).round,
            None => 1,
        };
        let votes = self.count_witness_votes(&e.hash, pr);
        if votes >= self.supermajority {
            pr + 1
        } else {
            pr
        }
    }

    /// Whether no other witness by the creator of the event at `i` has
    /// round `round` (see `first_in_round`).
    fn is_first_in_round(&self, i: usize, round: u64) -> (b: bool)
        requires
            self.dag.wf(),
            i < self.dag.events().len(),
        ensures
            b == first_in_round(self.dag.events(), i as int, round as int),
    {
        let ghost evs = self.dag.events();
        let e = self.dag.event_at(i);
        let mut j: usize = 0;
        while j < self.dag.len()
            invariant
                self.dag.wf(),
                evs == self.dag.events(),
                i < evs.len(),
                *e == evs[i as int],
                j <= evs.len(),
                forall|k: int| 0 <= k < j ==> !(#[trigger] evs[k].creator@ == evs[i as int].creator@ && evs[k].round == round
                    && evs[k].hash@ != evs[i as int].hash@ && evs[k].is_witness),
            decreases evs.len() - j,
        {
            let o = self.dag.event_at(j);
            if bytes_eq(&o.creator, &e.creator) && o.round == round && !hash_eq(&o.hash, &e.hash) && o.is_witness {
                return false;
            }
            j += 1;
        }
        true
    }

    // ── Step 1: Divide Rounds ──────────────────────────────────────────

    /// Assign round numbers and witness flags to all events, visiting them
    /// by timestamp (see `assign_rounds`). An event's round is 1 if it has
    /// no self-parent, otherwise its self-parent's round, plus one if it
    /// strongly sees a supermajority of that round's witnesses; it is a
    /// witness if it is the first event by its creator in its round.
    pub fn divide_rounds(&mut self)
        requires
            old(self).dag.wf(),
            rounds_below(old(self).dag.events(), old(self).dag.events().len() as int),
        ensures
            final(self).dag.wf(),
            final(self).dag.tip_set() == old(self).dag.tip_set(),
            final(self).dag.events() == assign_rounds(old(self).dag.events(), event_hashes(by_time(old(self).dag.events())),
                addresses_view(old(self).validators@), old(self).supermajority as nat),
            rounds_below(final(self).dag.events(), 0),
            final(self).validators@ == old(self).validators@,
            final(self).supermajority == old(self).supermajority,
            final(self).last_decided_round == old(self).last_decided_round,
    {
        let ghost e0 = self.dag.events();
        let ghost vals = addresses_view(self.validators@);
        let ghost sm = self.supermajority as nat;
        let ghost tips0 = self.dag.tip_set();
        let ghost n = e0.len();
        let mut hashes: Vec<crate::crypto::Hash> = Vec::new();
        {
            let order = self.dag.events_by_time();
            proof {
                lemma_by_time_len(e0);
            }
            let mut k: usize = 0;
            while k < order.len()
                invariant
                    deref_events(order@) == by_time(e0),
                    k <= order@.len(),
                    hashes_view(hashes@) == event_hashes(by_time(e0)).subrange(0, k as int),
                decreases order@.len() - k,
            {
                let ghost before = hashes@;
                hashes.push(order[k].hash);
                proof {
                    let dv = deref_events(order@);
                    assert(dv.len() == order@.len());
                    assert(dv[k as int] == *order@[k as int]);
                    assert(by_time(e0)[k as int].hash == order@[k as int].hash);
                    assert(hashes_view(hashes@) =~= hashes_view(before).push(order@[k as int].hash@));
                    assert(event_hashes(by_time(e0)).subrange(0, k + 1) =~= event_hashes(by_time(e0)).subrange(0, k as int).push(by_time(e0)[k as int].hash@));
                }
                k += 1;
            }
            proof {
                assert(event_hashes(by_time(e0)).subrange(0, k as int) =~= event_hashes(by_time(e0)));
            }
        }
        let ghost hs = hashes_view(hashes@);
        let mut k: usize = 0;
        while k < hashes.len()
            invariant
                self.dag.wf(),
                self.dag.tip_set() == tips0,
                vals == addresses_view(self.validators@),
                sm == self.supermajority as nat,
                self.validators@ == old(self).validators@,
                self.supermajority == old(self).supermajority,
                self.last_decided_round == old(self).last_decided_round,
                e0 == old(self).dag.events(),
                n == e0.len(),
                hs == hashes_view(hashes@),
                hs == event_hashes(by_time(e0)),
                hs.len() == n,
                k <= n,
                self.dag.events().len() == n,
                self.dag.events() == assign_rounds(e0, hs.subrange(0, k as int), vals, sm),
                rounds_below(self.dag.events(), n - k),
            decreases n - k,
        {
            let ghost cur = self.dag.events();
            let ghost d0 = self.dag;
            match self.dag.position(&hashes[k]) {
                None => {},
                Some(i) => {
                    let r = self.round_for(i);
                    let w = self.is_first_in_round(i, r);
                    self.dag.set_round(i, r, w);
                    proof {
                        let nxt = self.dag.events();
                        assert forall|j: int| 0 <= j < nxt.len() implies #[trigger] nxt[j].round + (n - k - 1) < u64::MAX by {
                            if j != i {
                                assert(nxt[j] == cur[j]);
                                assert(cur[j].round + (n - k) < u64::MAX);
                            } else {
                                let e = cur[i as int];
                                assert(nxt[j].round == r);
                                assert(r == next_round(cur, i as int, vals, sm));
                                assert(cur[i as int].round + (n - k) < u64::MAX);
                                if e.self_parent@ != no_parent() {
                                    crate::dag::lemma_parents_present(&d0, i as int);
                                    let pr: u64 = match index_of(cur, e.self_parent@) {
                                        Some(p) => cur[p].round,
                                        None => 1,
                                    };
                                    match index_of(cur, e.self_parent@) {
                                        Some(p) => {
                                            assert(0 <= p < cur.len());
                                            assert(cur[p].round + (n - k) < u64::MAX);
                                        },
                                        None => {},
                                    }
                                    assert(pr + (n - k) < u64::MAX);
                                    assert(r <= pr + 1);
                                } else {
                                    assert(r == 1);
                                }
                            }
                        }
                    }
                },
            }
            proof {
                assert(hs.subrange(0, k + 1).drop_last() =~= hs.subrange(0, k as int));
                assert(hs.subrange(0, k + 1).last() == hashes@[k as int]@);
            }
            k += 1;
        }
        proof {
            assert(hs.subrange(0, k as int) =~= hs);
        }
    }

    /// Whether some witness has round `round`.
    fn has_witness_in(&self, round: u64) -> (b: bool)
        requires
            self.dag.wf(),
        ensures
            b == has_witness_in(self.dag.events(), round as int),
    {
        let ghost evs = self.dag.events();
        let mut j: usize = 0;
        while j < self.dag.len()
            invariant
                self.dag.wf(),
                evs == self.dag.events(),
                j <= evs.len(),
                forall|k: int| 0 <= k < j ==> !(#[trigger] evs[k].is_witness && evs[k].round == round),
            decreases evs.len() - j,
        {
            let e = self.dag.event_at(j);
            if e.is_witness && e.round == round {
                return true;
            }
            j += 1;
        }
        false
    }

    /// How many witnesses of `round` strongly see the event with hash `w`.
    fn count_fame_votes(&self, w: &crate::crypto::Hash, round: u64) -> (n: usize)
        requires
            self.dag.wf(),
        ensures
            n == fame_votes(self.dag.events(), self.dag.events().len() as int, w@, round,
                addresses_view(self.validators@), self.supermajority as nat),
    {
        let ghost evs = self.dag.events();
        let mut count: usize = 0;
        let mut j: usize = 0;
        while j < self.dag.len()
            invariant
                self.dag.wf(),
                evs == self.dag.events(),
                j <= evs.len(),
                count <= j,
                count == fame_votes(evs, j as int, w@, round, addresses_view(self.validators@), self.supermajority as nat),
            decreases evs.len() - j,
        {
            let e = self.dag.event_at(j);
            if e.is_witness && e.round == round
                && self.dag.strongly_sees(&e.hash, w, self.validators.as_slice(), self.supermajority) {
                count += 1;
            }
            j += 1;
        }
        count
    }

    // ── Step 2: Decide Fame ────────────────────────────────────────────

    /// Decide every undecided witness for which the next round has a
    /// witness: it is famous when at least a supermajority of the next
    /// round's witnesses strongly see it (see `fame_decision`).
    pub fn decide_fame(&mut self)
        requires
            old(self).dag.wf(),
            forall|i: int| 0 <= i < old(self).dag.events().len() && #[trigger] old(self).dag.events()[i].is_witness
                && old(self).dag.events()[i].is_famous is None ==> old(self).dag.events()[i].round < u64::MAX,
        ensures
            final(self).dag.wf(),
            final(self).dag.tip_set() == old(self).dag.tip_set(),
            final(self).dag.events() == fame_decided(old(self).dag.events(), addresses_view(old(self).validators@),
                old(self).supermajority as nat),
            final(self).validators@ == old(self).validators@,
            final(self).supermajority == old(self).supermajority,
            final(self).last_decided_round == old(self).last_decided_round,
    {
        let ghost e0 = self.dag.events();
        let ghost vals = addresses_view(self.validators@);
        let ghost sm = self.supermajority as nat;
        let n = self.dag.len();
        let mut plan: Vec<Option<bool>> = Vec::new();
        let mut i: usize = 0;
        while i < n
            invariant
                self.dag.wf(),
                e0 == self.dag.events(),
                n == e0.len(),
                vals == addresses_view(self.validators@),
                sm == self.supermajority as nat,
                forall|k: int| 0 <= k < e0.len() && #[trigger] e0[k].is_witness && e0[k].is_famous is None ==> e0[k].round < u64::MAX,
                i <= n,
                plan@.len() == i,
                forall|k: int| 0 <= k < i ==> #[trigger] plan@[k] == fame_decision(e0, k, vals, sm),
            decreases n - i,
        {
            let e = self.dag.event_at(i);
            let mut d: Option<bool> = None;
            if e.is_witness && e.is_famous.is_none() {
                let next = e.round + 1;
                if self.has_witness_in(next) {
                    let votes = self.count_fame_votes(&e.hash, next);
                    d = Some(votes >= self.supermajority);
                }
            }
            plan.push(d);
            i += 1;
        }
        let mut i: usize = 0;
        while i < n
            invariant
                self.dag.wf(),
                self.dag.tip_set() == old(self).dag.tip_set(),
                self.validators@ == old(self).validators@,
                self.supermajority == old(self).supermajority,
                self.last_decided_round == old(self).last_decided_round,
                e0 == old(self).dag.events(),
                n == e0.len(),
                vals == addresses_view(self.validators@),
                sm == self.supermajority as nat,
                plan@.len() == n,
                forall|k: int| 0 <= k < n ==> #[trigger] plan@[k] == fame_decision(e0, k, vals, sm),
                i <= n,
                self.dag.events().len() == n,
                forall|k: int| 0 <= k < i ==> #[trigger] self.dag.events()[k] == decided(e0, k, vals, sm),
                forall|k: int| i <= k < n ==> #[trigger] self.dag.events()[k] == e0[k],
            decreases n - i,
        {
            match plan[i] {
                Some(b) => {
                    self.dag.set_fame(i, b);
                },
                None => {},
            }
            i += 1;
        }
        proof {
            assert(self.dag.events() =~= fame_decided(e0, vals, sm));
        }
    }
}

// ── Fame ──────────────────────────────────────────────────────────────────

/// Some witness has round `round`.
pub open spec fn has_witness_in(evs: Seq<Event>, round: int) -> bool {
    exists|j: int| 0 <= j < evs.len() && #[trigger] evs[j].is_witness && evs[j].round == round
}

/// How many witnesses of `round` among the first `upto` events strongly see
/// the event with hash `w`.
pub open spec fn fame_votes(
    evs: Seq<Event>,
    upto: int,
    w: Seq<u8>,
    round: u64,
    vals: Seq<Seq<u8>>,
    sm: nat,
) -> nat
    decreases upto,
{
    if upto <= 0 {
        0
    } else {
        let e = evs[upto - 1];
        fame_votes(evs, upto - 1, w, round, vals, sm) + if e.is_witness && e.round == round
            && spec_strongly_sees(evs, e.hash@, w, vals, sm) {
            1nat
        } else {
            0nat
        }
    }
}

/// The fame decision for the event at `i`, if one is taken: only an
/// undecided witness whose next round has a witness is decided.
pub open spec fn fame_decision(evs: Seq<Event>, i: int, vals: Seq<Seq<u8>>, sm: nat) -> Option<bool> {
    let e = evs[i];
    if e.is_witness && e.is_famous is None && has_witness_in(evs, e.round + 1) {
        Some(fame_votes(evs, evs.len() as int, e.hash@, (e.round + 1) as u64, vals, sm) >= sm)
    } else {
        None
    }
}

/// The event at `i` after the fame decision.
pub open spec fn decided(evs: Seq<Event>, i: int, vals: Seq<Seq<u8>>, sm: nat) -> Event {
    match fame_decision(evs, i, vals, sm) {
        Some(b) => with_fame(evs[i], b),
        None => evs[i],
    }
}

/// All events after the fame decisions.
pub open spec fn fame_decided(evs: Seq<Event>, vals: Seq<Seq<u8>>, sm: nat) -> Seq<Event> {
    Seq::new(evs.len(), |i: int| decided(evs, i, vals, sm))
}

/// `e` is a witness of `round` that strongly sees the event with hash `w`.
pub open spec fn votes_for(evs: Seq<Event>, e: Event, w: Seq<u8>, round: u64, vals: Seq<Seq<u8>>, sm: nat) -> bool {
    e.is_witness && e.round == round && spec_strongly_sees(evs, e.hash@, w, vals, sm)
}

proof fn lemma_fame_votes_count(evs: Seq<Event>, upto: int, w: Seq<u8>, round: u64, vals: Seq<Seq<u8>>, sm: nat)
    requires
        0 <= upto <= evs.len(),
    ensures
        fame_votes(evs, upto, w, round, vals, sm)
            == evs.take(upto).filter(|e: Event| votes_for(evs, e, w, round, vals, sm)).len(),
    decreases upto,
{
    reveal(Seq::filter);
    let pred = |e: Event| votes_for(evs, e, w, round, vals, sm);
    if upto == 0 {
        assert(evs.take(0) =~= Seq::<Event>::empty());
    } else {
        lemma_fame_votes_count(evs, upto - 1, w, round, vals, sm);
        assert(evs.take(upto).drop_last() =~= evs.take(upto - 1));
        assert(evs.take(upto).last() == evs[upto - 1]);
    }
}

/// Law: the fame vote. Each undecided witness whose next round has a
/// witness is decided, famous exactly when the witnesses of the next round
/// that strongly see it number at least `sm`; every other event (decided
/// witnesses among them) stays as it was, and a decision changes nothing
/// but the fame of the event it decides.
pub proof fn lemma_fame_vote(evs: Seq<Event>, vals: Seq<Seq<u8>>, sm: nat, i: int)
    requires
        0 <= i < evs.len(),
    ensures
        ({
            let e = evs[i];
            let next = (e.round + 1) as u64;
            let voters = evs.filter(|v: Event| votes_for(evs, v, e.hash@, next, vals, sm));
            &&& fame_decided(evs, vals, sm).len() == evs.len()
            &&& (e.is_witness && e.is_famous is None && has_witness_in(evs, e.round + 1)) ==>
                fame_decided(evs, vals, sm)[i] == with_fame(e, voters.len() >= sm)
            &&& !(e.is_witness && e.is_famous is None && has_witness_in(evs, e.round + 1)) ==>
                fame_decided(evs, vals, sm)[i] == e
        }),
{
    let e = evs[i];
    let next = (e.round + 1) as u64;
    lemma_fame_votes_count(evs, evs.len() as int, e.hash@, next, vals, sm);
    assert(evs.take(evs.len() as int) =~= evs);
}

// ── Order ─────────────────────────────────────────────────────────────────

/// A witness decided famous.
pub open spec fn famous_witness(e: Event) -> bool {
    e.is_witness && e.is_famous == Some(true)
}

/// Every famous witness of `round` has `x` as an ancestor.
pub open spec fn all_see(evs: Seq<Event>, x: Seq<u8>, round: u64) -> bool {
    forall|j: int| 0 <= j < evs.len() && #[trigger] famous_witness(evs[j]) && evs[j].round == round ==> ancestor(evs, x, evs[j].hash@)
}

/// `round` is later than `above`, has a famous witness, and all of them
/// have `x` as an ancestor.
pub open spec fn received_in(evs: Seq<Event>, x: Seq<u8>, above: u64, round: u64) -> bool {
    &&& round > above
    &&& exists|j: int| 0 <= j < evs.len() && #[trigger] famous_witness(evs[j]) && evs[j].round == round
    &&& all_see(evs, x, round)
}

/// Some round receives the event at `i`.
pub open spec fn has_received(evs: Seq<Event>, i: int) -> bool {
    exists|r: u64| received_in(evs, evs[i].hash@, evs[i].round, r)
}

/// The first round that receives the event at `i`.
pub open spec fn first_received(evs: Seq<Event>, i: int) -> u64 {
    choose|r: u64| received_in(evs, evs[i].hash@, evs[i].round, r)
        && forall|r2: u64| received_in(evs, evs[i].hash@, evs[i].round, r2) ==> r <= r2
}

/// Timestamps of the famous witnesses of `round` among the first `upto`
/// events.
pub open spec fn famous_times(evs: Seq<Event>, upto: int, round: u64) -> Seq<u64>
    decreases upto,
{
    if upto <= 0 {
        Seq::empty()
    } else {
        let e = evs[upto - 1];
        if famous_witness(e) && e.round == round {
            famous_times(evs, upto - 1, round).push(e.timestamp)
        } else {
            famous_times(evs, upto - 1, round)
        }
    }
}

/// The numeric order on timestamps.
pub open spec fn time_order() -> spec_fn(u64, u64) -> bool {
    |a: u64, b: u64| a <= b
}

/// The median timestamp of the famous witnesses of `round`: the middle
/// element (upper middle for an even count) of the sorted timestamps.
pub open spec fn median_time(evs: Seq<Event>, round: u64) -> u64 {
    let ts = famous_times(evs, evs.len() as int, round);
    ts.sort_by(time_order())[(ts.len() / 2) as int]
}

/// Round received and consensus timestamp for the event at `i`, if it is
/// not ordered yet and some round receives it.
#[verifier::opaque]
pub open spec fn entry_plan(evs: Seq<Event>, i: int) -> Option<(u64, u64)> {
    if evs[i].round_received is None && has_received(evs, i) {
        let r = first_received(evs, i);
        Some((r, median_time(evs, r)))
    } else {
        None
    }
}

/// The event at `i` after ordering.
pub open spec fn received(evs: Seq<Event>, i: int) -> Event {
    match entry_plan(evs, i) {
        Some(p) => with_received(evs[i], p.0, p.1),
        None => evs[i],
    }
}

/// All events after ordering.
pub open spec fn receive_all(evs: Seq<Event>) -> Seq<Event> {
    Seq::new(evs.len(), |i: int| received(evs, i))
}

/// The ordering keys (round received, consensus timestamp, hash) of the
/// newly ordered events among the first `upto`.
pub open spec fn ordering_entries(evs: Seq<Event>, upto: int) -> Seq<(u64, u64, Seq<u8>)>
    decreases upto,
{
    if upto <= 0 {
        Seq::empty()
    } else {
        match entry_plan(evs, upto - 1) {
            Some(p) => ordering_entries(evs, upto - 1).push((p.0, p.1, evs[upto - 1].hash@)),
            None => ordering_entries(evs, upto - 1),
        }
    }
}

/// Lexicographic order on byte strings.
pub open spec fn lex_le(a: Seq<u8>, b: Seq<u8>) -> bool
    decreases a.len(),
{
    if a.len() == 0 {
        true
    } else if b.len() == 0 {
        false
    } else if a[0] != b[0] {
        a[0] < b[0]
    } else {
        lex_le(a.drop_first(), b.drop_first())
    }
}

/// Order by round received, then consensus timestamp, then hash.
pub open spec fn order_le(a: (u64, u64, Seq<u8>), b: (u64, u64, Seq<u8>)) -> bool {
    a.0 < b.0 || (a.0 == b.0 && (a.1 < b.1 || (a.1 == b.1 && lex_le(a.2, b.2))))
}

/// `order_le` as a relation.
pub open spec fn entry_order() -> spec_fn((u64, u64, Seq<u8>), (u64, u64, Seq<u8>)) -> bool {
    |a: (u64, u64, Seq<u8>), b: (u64, u64, Seq<u8>)| order_le(a, b)
}

/// The hashes of the newly ordered events, in consensus order.
pub open spec fn consensus_order(evs: Seq<Event>) -> Seq<Seq<u8>> {
    entry_hashes(ordering_entries(evs, evs.len() as int).sort_by(entry_order()))
}

/// The hashes of a list of entries.
pub open spec fn entry_hashes(s: Seq<(u64, u64, Seq<u8>)>) -> Seq<Seq<u8>> {
    s.map_values(|t: (u64, u64, Seq<u8>)| t.2)
}

/// Entries by view.
pub open spec fn entries_view(s: Seq<(u64, u64, crate::crypto::Hash)>) -> Seq<(u64, u64, Seq<u8>)> {
    s.map_values(|t: (u64, u64, crate::crypto::Hash)| (t.0, t.1, t.2@))
}

pub proof fn lemma_lex_refl(a: Seq<u8>)
    ensures
        lex_le(a, a),
    decreases a.len(),
{
    if a.len() > 0 {
        lemma_lex_refl(a.drop_first());
    }
}

pub proof fn lemma_lex_antisym(a: Seq<u8>, b: Seq<u8>)
    requires
        lex_le(a, b),
        lex_le(b, a),
    ensures
        a == b,
    decreases a.len(),
{
    if a.len() > 0 {
        lemma_lex_antisym(a.drop_first(), b.drop_first());
        assert(a =~= seq![a[0]] + a.drop_first());
        assert(b =~= seq![b[0]] + b.drop_first());
    } else {
        assert(b.len() == 0);
        assert(a =~= b);
    }
}

pub proof fn lemma_lex_trans(a: Seq<u8>, b: Seq<u8>, c: Seq<u8>)
    requires
        lex_le(a, b),
        lex_le(b, c),
    ensures
        lex_le(a, c),
    decreases a.len(),
{
    if a.len() > 0 && b.len() > 0 && c.len() > 0 && a[0] == b[0] && b[0] == c[0] {
        lemma_lex_trans(a.drop_first(), b.drop_first(), c.drop_first());
    }
}

pub proof fn lemma_lex_total(a: Seq<u8>, b: Seq<u8>)
    ensures
        lex_le(a, b) || lex_le(b, a),
    decreases a.len(),
{
    if a.len() > 0 && b.len() > 0 && a[0] == b[0] {
        lemma_lex_total(a.drop_first(), b.drop_first());
    }
}

/// Equal prefixes do not decide the lexicographic order.
pub proof fn lemma_lex_skip(a: Seq<u8>, b: Seq<u8>, i: int)
    requires
        0 <= i <= a.len(),
        i <= b.len(),
        forall|k: int| 0 <= k < i ==> a[k] == b[k],
    ensures
        lex_le(a, b) == lex_le(a.subrange(i, a.len() as int), b.subrange(i, b.len() as int)),
    decreases i,
{
    if i == 0 {
        assert(a.subrange(0, a.len() as int) =~= a);
        assert(b.subrange(0, b.len() as int) =~= b);
    } else {
        lemma_lex_skip(a.drop_first(), b.drop_first(), i - 1);
        assert(a.drop_first().subrange(i - 1, a.len() - 1) =~= a.subrange(i, a.len() as int));
        assert(b.drop_first().subrange(i - 1, b.len() - 1) =~= b.subrange(i, b.len() as int));
    }
}

/// The consensus order is a total order.
pub proof fn lemma_entry_order_total()
    ensures
        vstd::relations::total_ordering(entry_order()),
{
    assert forall|a: (u64, u64, Seq<u8>)| #[trigger] entry_order()(a, a) by {
        lemma_lex_refl(a.2);
    }
    assert forall|a: (u64, u64, Seq<u8>), b: (u64, u64, Seq<u8>)|
        #[trigger] entry_order()(a, b) && #[trigger] entry_order()(b, a) implies a == b by {
        lemma_lex_antisym(a.2, b.2);
    }
    assert forall|a: (u64, u64, Seq<u8>), b: (u64, u64, Seq<u8>), c: (u64, u64, Seq<u8>)|
        #[trigger] entry_order()(a, b) && #[trigger] entry_order()(b, c) implies entry_order()(a, c) by {
        if a.0 == b.0 && b.0 == c.0 && a.1 == b.1 && b.1 == c.1 {
            lemma_lex_trans(a.2, b.2, c.2);
        }
    }
    assert forall|a: (u64, u64, Seq<u8>), b: (u64, u64, Seq<u8>)|
        #[trigger] entry_order()(a, b) || #[trigger] entry_order()(b, a) by {
        lemma_lex_total(a.2, b.2);
    }
}

/// Whether `a` comes no later than `b` in byte order.
fn hash_le(a: &crate::crypto::Hash, b: &crate::crypto::Hash) -> (r: bool)
    ensures
        r == lex_le(a@, b@),
{
    let mut i: usize = 0;
    while i < 32
        invariant
            i <= 32,
            a@.len() == 32,
            b@.len() == 32,
            forall|k: int| 0 <= k < i ==> a@[k] == b@[k],
        decreases 32 - i,
    {
        if a[i] != b[i] {
            proof {
                lemma_lex_skip(a@, b@, i as int);
                let sa = a@.subrange(i as int, 32);
                let sb = b@.subrange(i as int, 32);
                assert(sa[0] == a@[i as int] && sb[0] == b@[i as int]);
            }
            return a[i] < b[i];
        }
        i += 1;
    }
    proof {
        lemma_lex_skip(a@, b@, 32);
    }
    true
}

/// Whether entry `a` comes no later than entry `b`.
fn entry_le(a: &(u64, u64, crate::crypto::Hash), b: &(u64, u64, crate::crypto::Hash)) -> (r: bool)
    ensures
        r == order_le((a.0, a.1, a.2@), (b.0, b.1, b.2@)),
{
    if a.0 != b.0 {
        a.0 < b.0
    } else if a.1 != b.1 {
        a.1 < b.1
    } else {
        hash_le(&a.2, &b.2)
    }
}

/// The timestamps in ascending order.
fn sort_times(v: &Vec<u64>) -> (s: Vec<u64>)
    ensures
        s@ == v@.sort_by(time_order()),
        s@.len() == v@.len(),
{
    broadcast use vstd::seq_lib::group_to_multiset_ensures;
    let mut s: Vec<u64> = Vec::new();
    let mut i: usize = 0;
    while i < v.len()
        invariant
            i <= v@.len(),
            vstd::relations::sorted_by(s@, time_order()),
            s@.to_multiset() == v@.subrange(0, i as int).to_multiset(),
        decreases v@.len() - i,
    {
        let x = v[i];
        let mut j: usize = s.len();
        while j > 0 && s[j - 1] > x
            invariant
                j <= s@.len(),
                forall|m: int| j <= m < s@.len() ==> s@[m] > x,
            decreases j,
        {
            j -= 1;
        }
        let ghost before = s@;
        s.insert(j, x);
        proof {
            vstd::seq_lib::to_multiset_insert(before, j as int, x);
            assert(v@.subrange(0, i + 1) =~= v@.subrange(0, i as int).push(x));
            vstd::seq_lib::to_multiset_build(v@.subrange(0, i as int), x);
            assert forall|a: int, b: int| 0 <= a < b < s@.len() implies #[trigger] time_order()(s@[a], s@[b]) by {
                if b < j {
                    assert(time_order()(before[a], before[b]));
                } else if b == j {
                    if a < j - 1 {
                        assert(time_order()(before[a], before[j - 1]));
                    }
                } else if a == j {
                    assert(before[b - 1] > x);
                } else if a < j {
                    assert(time_order()(before[a], before[b - 1]));
                } else {
                    assert(time_order()(before[a - 1], before[b - 1]));
                }
            }
        }
        i += 1;
    }
    proof {
        assert(v@.subrange(0, i as int) =~= v@);
        let leq = time_order();
        assert(vstd::relations::total_ordering(leq));
        v@.lemma_sort_by_ensures(leq);
        vstd::seq_lib::lemma_sorted_unique(s@, v@.sort_by(leq), leq);
        assert(v@.len() == v@.to_multiset().len());
        assert(s@.len() == s@.to_multiset().len());
    }
    s
}

/// The entries in consensus order.
fn sort_entries(v: &Vec<(u64, u64, crate::crypto::Hash)>) -> (s: Vec<(u64, u64, crate::crypto::Hash)>)
    ensures
        entries_view(s@) == entries_view(v@).sort_by(entry_order()),
{
    broadcast use vstd::seq_lib::group_to_multiset_ensures;
    proof {
        lemma_entry_order_total();
    }
    let mut s: Vec<(u64, u64, crate::crypto::Hash)> = Vec::new();
    let mut i: usize = 0;
    while i < v.len()
        invariant
            i <= v@.len(),
            vstd::relations::total_ordering(entry_order()),
            vstd::relations::sorted_by(entries_view(s@), entry_order()),
            entries_view(s@).to_multiset() == entries_view(v@.subrange(0, i as int)).to_multiset(),
        decreases v@.len() - i,
    {
        let x = v[i];
        let ghost xv = (x.0, x.1, x.2@);
        let mut j: usize = s.len();
        while j > 0 && !entry_le(&s[j - 1], &x)
            invariant
                j <= s@.len(),
                xv == (x.0, x.1, x.2@),
                forall|m: int| j <= m < s@.len() ==> !order_le(#[trigger] entries_view(s@)[m], xv),
            decreases j,
        {
            j -= 1;
            assert(entries_view(s@)[j as int] == (s@[j as int].0, s@[j as int].1, s@[j as int].2@));
        }
        let ghost before = entries_view(s@);
        s.insert(j, x);
        proof {
            assert(entries_view(s@) =~= before.insert(j as int, xv));
            vstd::seq_lib::to_multiset_insert(before, j as int, xv);
            assert(entries_view(v@.subrange(0, i + 1)) =~= entries_view(v@.subrange(0, i as int)).push(xv));
            vstd::seq_lib::to_multiset_build(entries_view(v@.subrange(0, i as int)), xv);
            if j > 0 {
                assert(before[j - 1] == (s@[j - 1].0, s@[j - 1].1, s@[j - 1].2@));
            }
            let leq = entry_order();
            assert forall|a: int, b: int| 0 <= a < b < entries_view(s@).len() implies #[trigger] leq(entries_view(s@)[a], entries_view(s@)[b]) by {
                let sv = entries_view(s@);
                if b < j {
                    assert(leq(before[a], before[b]));
                } else if b == j {
                    assert(leq(before[j - 1], xv));
                    if a < j - 1 {
                        assert(leq(before[a], before[j - 1]));
                    }
                } else if a == j {
                    assert(!leq(before[b - 1], xv));
                    assert(leq(before[b - 1], xv) || leq(xv, before[b - 1]));
                } else if a < j {
                    assert(leq(before[a], before[b - 1]));
                } else {
                    assert(leq(before[a - 1], before[b - 1]));
                }
            }
        }
        i += 1;
    }
    proof {
        assert(v@.subrange(0, i as int) =~= v@);
        let leq = entry_order();
        entries_view(v@).lemma_sort_by_ensures(leq);
        vstd::seq_lib::lemma_sorted_unique(entries_view(s@), entries_view(v@).sort_by(leq), leq);
    }
    s
}

impl AbftConsensus {
    /// Whether every famous witness of `round` has `x` as an ancestor.
    fn all_famous_see(&self, x: &crate::crypto::Hash, round: u64) -> (b: bool)
        requires
            self.dag.wf(),
        ensures
            b == all_see(self.dag.events(), x@, round),
    {
        let ghost evs = self.dag.events();
        let mut j: usize = 0;
        while j < self.dag.len()
            invariant
                self.dag.wf(),
                evs == self.dag.events(),
                j <= evs.len(),
                forall|k: int| 0 <= k < j && #[trigger] famous_witness(evs[k]) && evs[k].round == round ==> ancestor(evs, x@, evs[k].hash@),
            decreases evs.len() - j,
        {
            let f = self.dag.event_at(j);
            let famous = match f.is_famous {
                Some(b) => b,
                None => false,
            };
            if f.is_witness && famous && f.round == round && !self.dag.is_ancestor(x, &f.hash) {
                assert(famous_witness(evs[j as int]));
                return false;
            }
            j += 1;
        }
        true
    }

    /// The first round that receives the event at `i`, if any.
    fn received_round(&self, i: usize) -> (r: Option<u64>)
        requires
            self.dag.wf(),
            i < self.dag.events().len(),
        ensures
            r is None <==> !has_received(self.dag.events(), i as int),
            r matches Some(x) ==> x == first_received(self.dag.events(), i as int)
                && received_in(self.dag.events(), self.dag.events()[i as int].hash@, self.dag.events()[i as int].round, x),
    {
        let ghost evs = self.dag.events();
        let e = self.dag.event_at(i);
        let ghost x = e.hash@;
        let ghost above = e.round;
        let mut best: Option<u64> = None;
        let mut j: usize = 0;
        while j < self.dag.len()
            invariant
                self.dag.wf(),
                evs == self.dag.events(),
                i < evs.len(),
                *e == evs[i as int],
                x == e.hash@,
                above == e.round,
                j <= evs.len(),
                best is None ==> forall|k: int| 0 <= k < j && #[trigger] famous_witness(evs[k]) ==> !received_in(evs, x, above, evs[k].round),
                best matches Some(b) ==> received_in(evs, x, above, b)
                    && forall|k: int| 0 <= k < j && #[trigger] famous_witness(evs[k]) && received_in(evs, x, above, evs[k].round) ==> b <= evs[k].round,
            decreases evs.len() - j,
        {
            let f = self.dag.event_at(j);
            let famous = match f.is_famous {
                Some(b) => b,
                None => false,
            };
            if f.is_witness && famous && f.round > e.round {
                let better = match best {
                    None => true,
                    Some(b) => f.round < b,
                };
                if better {
                    if self.all_famous_see(&e.hash, f.round) {
                        assert(famous_witness(evs[j as int]));
                        best = Some(f.round);
                    }
                }
            }
            j += 1;
        }
        proof {
            match best {
                None => {
                    if has_received(evs, i as int) {
                        let r = choose|r: u64| received_in(evs, x, above, r);
                        let k = choose|k: int| 0 <= k < evs.len() && #[trigger] famous_witness(evs[k]) && evs[k].round == r;
                        assert(!received_in(evs, x, above, evs[k].round));
                    }
                },
                Some(b) => {
                    assert forall|r2: u64| received_in(evs, x, above, r2) implies b <= r2 by {
                        let k = choose|k: int| 0 <= k < evs.len() && #[trigger] famous_witness(evs[k]) && evs[k].round == r2;
                    }
                    let c = first_received(evs, i as int);
                    assert(received_in(evs, x, above, c) && b <= c);
                },
            }
        }
        best
    }

    /// The median timestamp of the famous witnesses of `round`.
    fn median_of(&self, round: u64) -> (m: u64)
        requires
            self.dag.wf(),
            exists|j: int| 0 <= j < self.dag.events().len() && #[trigger] famous_witness(self.dag.events()[j]) && self.dag.events()[j].round == round,
        ensures
            m == median_time(self.dag.events(), round),
    {
        let ghost evs = self.dag.events();
        let mut ts: Vec<u64> = Vec::new();
        let mut j: usize = 0;
        while j < self.dag.len()
            invariant
                self.dag.wf(),
                evs == self.dag.events(),
                j <= evs.len(),
                ts@ == famous_times(evs, j as int, round),
                forall|k: int| 0 <= k < j && #[trigger] famous_witness(evs[k]) && evs[k].round == round ==> ts@.len() > 0,
            decreases evs.len() - j,
        {
            let f = self.dag.event_at(j);
            let famous = match f.is_famous {
                Some(b) => b,
                None => false,
            };
            if f.is_witness && famous && f.round == round {
                ts.push(f.timestamp);
            }
            j += 1;
        }
        let sorted = sort_times(&ts);
        sorted[sorted.len() / 2]
    }

    /// Round received and consensus timestamp for the event at `i` (see
    /// `entry_plan`).
    fn plan_for(&self, i: usize) -> (p: Option<(u64, u64)>)
        requires
            self.dag.wf(),
            i < self.dag.events().len(),
        ensures
            p == entry_plan(self.dag.events(), i as int),
    {
        reveal(entry_plan);
        let e = self.dag.event_at(i);
        if e.round_received.is_none() {
            match self.received_round(i) {
                Some(r) => Some((r, self.median_of(r))),
                None => None,
            }
        } else {
            None
        }
    }

    // ── Step 3: Find Order ─────────────────────────────────────────────

    /// Give each event not ordered yet its round received (the first later
    /// round whose famous witnesses all have it as an ancestor) and its
    /// consensus timestamp (the median timestamp of those witnesses), and
    /// return the hashes of the newly ordered events sorted by round
    /// received, consensus timestamp and hash.
    pub fn find_order(&mut self) -> (r: Vec<crate::crypto::Hash>)
        requires
            old(self).dag.wf(),
        ensures
            final(self).dag.wf(),
            final(self).dag.tip_set() == old(self).dag.tip_set(),
            final(self).dag.events() == receive_all(old(self).dag.events()),
            hashes_view(r@) == consensus_order(old(self).dag.events()),
            final(self).validators@ == old(self).validators@,
            final(self).supermajority == old(self).supermajority,
            final(self).last_decided_round == old(self).last_decided_round,
    {
        let ghost e0 = self.dag.events();
        let n = self.dag.len();
        let mut plan: Vec<Option<(u64, u64)>> = Vec::new();
        let mut entries: Vec<(u64, u64, crate::crypto::Hash)> = Vec::new();
        let mut i: usize = 0;
        while i < n
            invariant
                self.dag.wf(),
                e0 == self.dag.events(),
                n == e0.len(),
                i <= n,
                plan@.len() == i,
                forall|k: int| 0 <= k < i ==> #[trigger] plan@[k] == entry_plan(e0, k),
                entries_view(entries@) == ordering_entries(e0, i as int),
            decreases n - i,
        {
            let p = self.plan_for(i);
            match p {
                Some(t) => {
                    let ghost before = entries@;
                    entries.push((t.0, t.1, self.dag.event_at(i).hash));
                    assert(entries_view(entries@) =~= entries_view(before).push((t.0, t.1, e0[i as int].hash@)));
                },
                None => {},
            }
            plan.push(p);
            i += 1;
        }
        let mut i: usize = 0;
        while i < n
            invariant
                self.dag.wf(),
                self.dag.tip_set() == old(self).dag.tip_set(),
                self.validators@ == old(self).validators@,
                self.supermajority == old(self).supermajority,
                self.last_decided_round == old(self).last_decided_round,
                e0 == old(self).dag.events(),
                n == e0.len(),
                plan@.len() == n,
                forall|k: int| 0 <= k < n ==> #[trigger] plan@[k] == entry_plan(e0, k),
                i <= n,
                self.dag.events().len() == n,
                forall|k: int| 0 <= k < i ==> #[trigger] self.dag.events()[k] == received(e0, k),
                forall|k: int| i <= k < n ==> #[trigger] self.dag.events()[k] == e0[k],
            decreases n - i,
        {
            match plan[i] {
                Some(p) => {
                    self.dag.set_received(i, p.0, p.1);
                },
                None => {},
            }
            i += 1;
        }
        proof {
            assert(self.dag.events() =~= receive_all(e0));
        }
        let sorted = sort_entries(&entries);
        let mut out: Vec<crate::crypto::Hash> = Vec::new();
        let mut k: usize = 0;
        while k < sorted.len()
            invariant
                k <= sorted@.len(),
                hashes_view(out@) == entry_hashes(entries_view(sorted@).subrange(0, k as int)),
            decreases sorted@.len() - k,
        {
            let ghost before = out@;
            out.push(sorted[k].2);
            proof {
                assert(hashes_view(out@) =~= hashes_view(before).push(sorted@[k as int].2@));
                assert(entry_hashes(entries_view(sorted@).subrange(0, k + 1)) =~= entry_hashes(entries_view(sorted@).subrange(0, k as int)).push(sorted@[k as int].2@));
            }
            k += 1;
        }
        proof {
            assert(entries_view(sorted@).subrange(0, k as int) =~= entries_view(sorted@));
        }
        out
    }
}

// ── Output ────────────────────────────────────────────────────────────────

/// Walking the ordered hashes: the transaction hashes of the events received
/// after round `last`, and the highest round received among them (or `last`).
pub open spec fn collect_output(evs: Seq<Event>, order: Seq<Seq<u8>>, last: u64) -> (Seq<Seq<u8>>, u64)
    decreases order.len(),
{
    if order.len() == 0 {
        (Seq::empty(), last)
    } else {
        let prev = collect_output(evs, order.drop_last(), last);
        match index_of(evs, order.last()) {
            Some(i) => match evs[i].round_received {
                Some(rr) => if rr > last {
                    (prev.0 + hashes_view(evs[i].payload@), if prev.1 >= rr { prev.1 } else { rr })
                } else {
                    prev
                },
                None => prev,
            },
            None => prev,
        }
    }
}

/// What one run of `process` does: the three steps on the DAG, then the
/// output collected from the newly ordered events received after the last
/// decided round.
pub open spec fn processed(before: AbftConsensus, after: AbftConsensus, out: Option<ConsensusOutput>) -> bool {
    let vals = addresses_view(before.validators@);
    let sm = before.supermajority as nat;
    let e1 = assign_rounds(before.dag.events(), event_hashes(by_time(before.dag.events())), vals, sm);
    let e2 = fame_decided(e1, vals, sm);
    let e3 = receive_all(e2);
    let res = collect_output(e3, consensus_order(e2), before.last_decided_round);
    &&& after.dag.wf()
    &&& after.validators@ == before.validators@
    &&& after.supermajority == before.supermajority
    &&& after.last_decided_round >= before.last_decided_round
    &&& after.dag.events() == e3
    &&& res.0.len() == 0 ==> out is None && after.last_decided_round == before.last_decided_round
    &&& res.0.len() > 0 ==> (out matches Some(o) && hashes_view(o.ordered_tx_hashes@) == res.0
        && o.round_decided == res.1 && after.last_decided_round == res.1)
}

/// The highest round collected is never below the starting one.
pub proof fn lemma_collect_output_monotone(evs: Seq<Event>, order: Seq<Seq<u8>>, last: u64)
    ensures
        collect_output(evs, order, last).1 >= last,
    decreases order.len(),
{
    if order.len() > 0 {
        lemma_collect_output_monotone(evs, order.drop_last(), last);
    }
}

/// An ordered event whose round received is after `last`.
pub open spec fn received_after(evs: Seq<Event>, order: Seq<Seq<u8>>, k: int, last: u64) -> bool {
    &&& 0 <= k < order.len()
    &&& index_of(evs, order[k]) is Some
    &&& evs[index_of(evs, order[k])->0].round_received is Some
    &&& evs[index_of(evs, order[k])->0].round_received->0 > last
}

/// The round received of the event with the `k`-th ordered hash.
pub open spec fn received_round(evs: Seq<Event>, order: Seq<Seq<u8>>, k: int) -> u64 {
    evs[index_of(evs, order[k])->0].round_received->0
}

/// Law: the round `process` records as last decided is the highest round
/// received among the newly ordered events received after the previous
/// one; it stays as it was when there is none.
pub proof fn lemma_collect_output_round(evs: Seq<Event>, order: Seq<Seq<u8>>, last: u64)
    ensures
        collect_output(evs, order, last).1 >= last,
        forall|k: int| #[trigger] received_after(evs, order, k, last) ==> received_round(evs, order, k) <= collect_output(evs, order, last).1,
        collect_output(evs, order, last).1 == last || exists|k: int| #[trigger] received_after(evs, order, k, last)
            && received_round(evs, order, k) == collect_output(evs, order, last).1,
    decreases order.len(),
{
    if order.len() > 0 {
        let p = order.drop_last();
        lemma_collect_output_round(evs, p, last);
        assert forall|k: int| 0 <= k < p.len() implies (received_after(evs, p, k, last) == received_after(evs, order, k, last)
            && received_round(evs, p, k) == received_round(evs, order, k)) by {
            assert(p[k] == order[k]);
        }
        let prev = collect_output(evs, p, last);
        if prev.1 != last {
            let k = choose|k: int| #[trigger] received_after(evs, p, k, last) && received_round(evs, p, k) == prev.1;
            assert(received_after(evs, order, k, last));
        }
        let n = order.len() - 1;
        assert forall|k: int| #[trigger] received_after(evs, order, k, last) implies received_round(evs, order, k) <= collect_output(evs, order, last).1 by {
            if k < n {
                assert(received_after(evs, p, k, last));
            }
        }
        if received_after(evs, order, n, last) && collect_output(evs, order, last).1 != prev.1 {
            assert(received_round(evs, order, n) == collect_output(evs, order, last).1);
        }
    }
}

/// Only first events: no event has a self-parent, and no two events have
/// the same creator.
pub open spec fn genesis_only(evs: Seq<Event>) -> bool {
    &&& forall|i: int| 0 <= i < evs.len() ==> (#[trigger] evs[i]).self_parent@ == no_parent()
    &&& forall|i: int, j: int|
        0 <= i < evs.len() && 0 <= j < evs.len() && (#[trigger] evs[i]).creator@ == (#[trigger] evs[j]).creator@ ==> i == j
}

proof fn lemma_assign_genesis(evs: Seq<Event>, hs: Seq<Seq<u8>>, vals: Seq<Seq<u8>>, sm: nat)
    requires
        genesis_only(evs),
        crate::dag::distinct_hashes(evs),
    ensures
        assign_rounds(evs, hs, vals, sm).len() == evs.len(),
        forall|i: int| 0 <= i < evs.len() ==> crate::dag::same_links(#[trigger] assign_rounds(evs, hs, vals, sm)[i], evs[i]),
        forall|i: int, k: int| 0 <= i < evs.len() && 0 <= k < hs.len() && #[trigger] hs[k] == (#[trigger] evs[i]).hash@
            ==> assign_rounds(evs, hs, vals, sm)[i].round == 1 && assign_rounds(evs, hs, vals, sm)[i].is_witness,
    decreases hs.len(),
{
    if hs.len() > 0 {
        let p = hs.drop_last();
        lemma_assign_genesis(evs, p, vals, sm);
        let out0 = assign_rounds(evs, p, vals, sm);
        let out = assign_rounds(evs, hs, vals, sm);
        let h = hs.last();
        assert(out == assign_round(out0, h, vals, sm));
        assert forall|a: int, b: int| 0 <= a < b < out0.len() implies out0[a].hash@ != out0[b].hash@ by {
            assert(crate::dag::same_links(out0[a], evs[a]) && crate::dag::same_links(out0[b], evs[b]));
        }
        match index_of(out0, h) {
            None => {
                assert forall|i: int, k: int| 0 <= i < evs.len() && 0 <= k < hs.len() && #[trigger] hs[k] == (#[trigger] evs[i]).hash@
                    implies out[i].round == 1 && out[i].is_witness by {
                    if k == hs.len() - 1 {
                        assert(crate::dag::same_links(out0[i], evs[i]));
                        assert(out0[i].hash@ == h);
                    } else {
                        assert(p[k] == hs[k]);
                    }
                }
            },
            Some(x) => {
                assert(crate::dag::same_links(out0[x], evs[x]));
                assert(next_round(out0, x, vals, sm) == 1);
                assert(first_in_round(out0, x, 1)) by {
                    if exists|j: int|
                        0 <= j < out0.len() && #[trigger] out0[j].creator@ == out0[x].creator@ && out0[j].round == 1
                            && out0[j].hash@ != out0[x].hash@ && out0[j].is_witness {
                        let j = choose|j: int|
                            0 <= j < out0.len() && #[trigger] out0[j].creator@ == out0[x].creator@ && out0[j].round == 1
                                && out0[j].hash@ != out0[x].hash@ && out0[j].is_witness;
                        assert(crate::dag::same_links(out0[j], evs[j]));
                        assert(evs[j].creator@ == evs[x].creator@);
                    }
                }
                assert forall|i: int| 0 <= i < evs.len() implies crate::dag::same_links(#[trigger] out[i], evs[i]) by {
                    assert(crate::dag::same_links(out0[i], evs[i]));
                }
                assert forall|i: int, k: int| 0 <= i < evs.len() && 0 <= k < hs.len() && #[trigger] hs[k] == (#[trigger] evs[i]).hash@
                    implies out[i].round == 1 && out[i].is_witness by {
                    assert(crate::dag::same_links(out0[i], evs[i]));
                    if k == hs.len() - 1 {
                        assert(out0[i].hash@ == out0[x].hash@);
                    } else {
                        assert(p[k] == hs[k]);
                    }
                }
            },
        }
    }
}

/// Law: in a DAG of first events only (no self-parents, one event per
/// creator), dividing rounds puts every event in round 1 as a witness.
pub proof fn lemma_genesis_rounds(evs: Seq<Event>, vals: Seq<Seq<u8>>, sm: nat)
    requires
        genesis_only(evs),
        crate::dag::distinct_hashes(evs),
    ensures
        assign_rounds(evs, event_hashes(by_time(evs)), vals, sm).len() == evs.len(),
        forall|i: int| 0 <= i < evs.len() ==> (#[trigger] assign_rounds(evs, event_hashes(by_time(evs)), vals, sm)[i]).round == 1
            && assign_rounds(evs, event_hashes(by_time(evs)), vals, sm)[i].is_witness,
{
    broadcast use vstd::seq_lib::to_multiset_contains;
    let hs = event_hashes(by_time(evs));
    lemma_assign_genesis(evs, hs, vals, sm);
    crate::dag::lemma_by_time_multiset(evs);
    assert forall|i: int| 0 <= i < evs.len() implies (#[trigger] assign_rounds(evs, hs, vals, sm)[i]).round == 1
        && assign_rounds(evs, hs, vals, sm)[i].is_witness by {
        assert(evs.to_multiset().count(evs[i]) > 0);
        assert(by_time(evs).contains(evs[i]));
        let k = choose|k: int| 0 <= k < by_time(evs).len() && by_time(evs)[k] == evs[i];
        assert(hs[k] == evs[i].hash@);
    }
}

/// The event at `i` is newly ordered: not ordered yet, and received by
/// some round.
pub open spec fn newly_ordered(evs: Seq<Event>, i: int) -> bool {
    entry_plan(evs, i) is Some
}

/// Some event before `upto` is newly ordered and has hash `h`.
spec fn ordered_before(evs: Seq<Event>, upto: int, h: Seq<u8>) -> bool {
    exists|i: int| 0 <= i < upto && newly_ordered(evs, i) && evs[i].hash@ == h
}

proof fn lemma_entries(evs: Seq<Event>, upto: int)
    requires
        0 <= upto <= evs.len(),
        crate::dag::distinct_hashes(evs),
    ensures
        forall|k: int| 0 <= k < ordering_entries(evs, upto).len() ==> ordered_before(
            evs, upto, (#[trigger] ordering_entries(evs, upto)[k]).2),
        forall|i: int| 0 <= i < upto && #[trigger] newly_ordered(evs, i) ==> exists|k: int|
            0 <= k < ordering_entries(evs, upto).len() && ordering_entries(evs, upto)[k].2 == evs[i].hash@,
        forall|a: int, b: int| 0 <= a < b < ordering_entries(evs, upto).len()
            ==> (#[trigger] ordering_entries(evs, upto)[a]).2 != (#[trigger] ordering_entries(evs, upto)[b]).2,
    decreases upto,
{
    if upto > 0 {
        lemma_entries(evs, upto - 1);
        let p = ordering_entries(evs, upto - 1);
        let e = ordering_entries(evs, upto);
        let j = upto - 1;
        if newly_ordered(evs, j) {
            let plan = entry_plan(evs, j)->0;
            assert(e == p.push((plan.0, plan.1, evs[j].hash@)));
            assert forall|k: int| 0 <= k < e.len() implies ordered_before(evs, upto, (#[trigger] e[k]).2) by {
                if k < p.len() {
                    assert(e[k] == p[k]);
                    assert(ordered_before(evs, upto - 1, p[k].2));
                    let i = choose|i: int| 0 <= i < upto - 1 && newly_ordered(evs, i) && evs[i].hash@ == p[k].2;
                    assert(0 <= i < upto && newly_ordered(evs, i) && evs[i].hash@ == e[k].2);
                } else {
                    assert(0 <= j < upto && newly_ordered(evs, j) && evs[j].hash@ == e[k].2);
                }
            }
            assert forall|i: int| 0 <= i < upto && #[trigger] newly_ordered(evs, i) implies exists|k: int|
                0 <= k < e.len() && e[k].2 == evs[i].hash@ by {
                if i < upto - 1 {
                    let k = choose|k: int| 0 <= k < p.len() && p[k].2 == evs[i].hash@;
                    assert(e[k] == p[k]);
                } else {
                    assert(e[p.len() as int].2 == evs[i].hash@);
                }
            }
            assert forall|a: int, b: int| 0 <= a < b < e.len() implies (#[trigger] e[a]).2 != (#[trigger] e[b]).2 by {
                if b == p.len() {
                    assert(e[a] == p[a]);
                    assert(ordered_before(evs, upto - 1, p[a].2));
                    let i = choose|i: int| 0 <= i < upto - 1 && newly_ordered(evs, i) && evs[i].hash@ == p[a].2;
                    assert(evs[i].hash@ != evs[j].hash@);
                } else {
                    assert(e[a] == p[a] && e[b] == p[b]);
                }
            }
        } else {
            assert(e == p);
            assert forall|i: int| 0 <= i < upto && #[trigger] newly_ordered(evs, i) implies exists|k: int|
                0 <= k < e.len() && e[k].2 == evs[i].hash@ by {
                assert(i < upto - 1);
            }
            assert forall|k: int| 0 <= k < e.len() implies ordered_before(evs, upto, (#[trigger] e[k]).2) by {
                assert(e[k] == p[k]);
                assert(ordered_before(evs, upto - 1, p[k].2));
                let i = choose|i: int| 0 <= i < upto - 1 && newly_ordered(evs, i) && evs[i].hash@ == p[k].2;
                assert(0 <= i < upto && newly_ordered(evs, i) && evs[i].hash@ == e[k].2);
            }
        }
    } else {
        assert(ordering_entries(evs, upto) =~= Seq::<(u64, u64, Seq<u8>)>::empty());
    }
}

/// Law: `find_order` lists each newly ordered event exactly once: the
/// hashes it gives have no duplicates, and they are exactly the hashes of
/// the events that were not ordered yet and that some round receives.
pub proof fn lemma_consensus_order(evs: Seq<Event>)
    requires
        crate::dag::distinct_hashes(evs),
    ensures
        consensus_order(evs).no_duplicates(),
        forall|h: Seq<u8>| #[trigger] consensus_order(evs).contains(h) <==> exists|i: int|
            0 <= i < evs.len() && evs[i].hash@ == h && newly_ordered(evs, i),
{
    broadcast use vstd::seq_lib::to_multiset_contains;
    let e = ordering_entries(evs, evs.len() as int);
    lemma_entries(evs, evs.len() as int);
    lemma_entry_order_total();
    e.lemma_sort_by_ensures(entry_order());
    let srt = e.sort_by(entry_order());
    let co = consensus_order(evs);
    assert(co == entry_hashes(srt));
    // The sorted entries are the entries.
    assert forall|x: (u64, u64, Seq<u8>)| srt.contains(x) <==> e.contains(x) by {
        if e.contains(x) {
            assert(e.to_multiset().count(x) > 0);
            assert(srt.to_multiset().count(x) > 0);
        }
    }
    // The entries have no duplicates, nor do the sorted ones.
    assert(e.no_duplicates()) by {
        assert forall|a: int, b: int| 0 <= a < e.len() && 0 <= b < e.len() && a != b implies e[a] != e[b] by {
            if a < b {
                assert(e[a].2 != e[b].2);
            } else {
                assert(e[b].2 != e[a].2);
            }
        }
    }
    e.lemma_multiset_has_no_duplicates();
    assert forall|x: (u64, u64, Seq<u8>)| srt.to_multiset().contains(x) implies srt.to_multiset().count(x) == 1 by {
        assert(e.to_multiset().contains(x));
    }
    srt.lemma_multiset_has_no_duplicates_conv();
    assert forall|a: int, b: int| 0 <= a < co.len() && 0 <= b < co.len() && a != b implies co[a] != co[b] by {
        assert(srt.contains(srt[a]) && srt.contains(srt[b]));
        let ka = choose|k: int| 0 <= k < e.len() && e[k] == srt[a];
        let kb = choose|k: int| 0 <= k < e.len() && e[k] == srt[b];
        if co[a] == co[b] {
            assert(e[ka].2 == e[kb].2);
            if ka < kb {
                assert(e[ka].2 != e[kb].2);
            } else if kb < ka {
                assert(e[kb].2 != e[ka].2);
            }
            assert(srt[a] == srt[b]);
        }
    }
    assert forall|h: Seq<u8>| #[trigger] co.contains(h) <==> exists|i: int|
        0 <= i < evs.len() && evs[i].hash@ == h && newly_ordered(evs, i) by {
        if co.contains(h) {
            let a = choose|a: int| 0 <= a < co.len() && co[a] == h;
            assert(srt.contains(srt[a]));
            let k = choose|k: int| 0 <= k < e.len() && e[k] == srt[a];
            assert(e[k].2 == h);
            assert(ordered_before(evs, evs.len() as int, e[k].2));
        }
        if exists|i: int| 0 <= i < evs.len() && evs[i].hash@ == h && newly_ordered(evs, i) {
            let i = choose|i: int| 0 <= i < evs.len() && evs[i].hash@ == h && newly_ordered(evs, i);
            let k = choose|k: int| 0 <= k < e.len() && e[k].2 == evs[i].hash@;
            assert(e.contains(e[k]));
            assert(srt.contains(e[k]));
            let a = choose|a: int| 0 <= a < srt.len() && srt[a] == e[k];
            assert(co[a] == h);
        }
    }
}

impl AbftConsensus {
    // ── Step 4: Extract Output ─────────────────────────────────────────

    /// Run the three consensus steps and collect the transaction hashes of
    /// the newly ordered events received after the last decided round.
    /// Returns `None` when there are none; otherwise the last decided round
    /// becomes the highest round received among them.
    pub fn process(&mut self) -> (out: Option<ConsensusOutput>)
        requires
            old(self).dag.wf(),
            rounds_below(old(self).dag.events(), old(self).dag.events().len() as int),
        ensures
            processed(*old(self), *final(self), out),
    {
        self.divide_rounds();
        self.decide_fame();
        let ghost e2 = self.dag.events();
        let ordered = self.find_order();
        let ghost e3 = self.dag.events();
        let ghost order = hashes_view(ordered@);
        let last = self.last_decided_round;
        let mut tx_hashes: Vec<crate::crypto::Hash> = Vec::new();
        let mut max_round = last;
        let mut k: usize = 0;
        while k < ordered.len()
            invariant
                self.dag.wf(),
                e3 == self.dag.events(),
                order == hashes_view(ordered@),
                k <= ordered@.len(),
                (hashes_view(tx_hashes@), max_round) == collect_output(e3, order.subrange(0, k as int), last),
            decreases ordered@.len() - k,
        {
            proof {
                assert(order.subrange(0, k + 1).drop_last() =~= order.subrange(0, k as int));
                assert(order.subrange(0, k + 1).last() == ordered@[k as int]@);
            }
            match self.dag.position(&ordered[k]) {
                Some(i) => {
                    let ev = self.dag.event_at(i);
                    match ev.round_received {
                        Some(rr) => {
                            if rr > last {
                                let ghost before = hashes_view(tx_hashes@);
                                let mut m: usize = 0;
                                while m < ev.payload.len()
                                    invariant
                                        m <= ev.payload@.len(),
                                        hashes_view(tx_hashes@) == before + hashes_view(ev.payload@.subrange(0, m as int)),
                                    decreases ev.payload@.len() - m,
                                {
                                    let ghost b2 = tx_hashes@;
                                    tx_hashes.push(ev.payload[m]);
                                    proof {
                                        assert(hashes_view(tx_hashes@) =~= hashes_view(b2).push(ev.payload@[m as int]@));
                                        assert(hashes_view(ev.payload@.subrange(0, m + 1)) =~= hashes_view(ev.payload@.subrange(0, m as int)).push(ev.payload@[m as int]@));
                                    }
                                    m += 1;
                                }
                                proof {
                                    assert(ev.payload@.subrange(0, m as int) =~= ev.payload@);
                                }
                                if rr > max_round {
                                    max_round = rr;
                                }
                            }
                        },
                        None => {},
                    }
                },
                None => {},
            }
            k += 1;
        }
        proof {
            assert(order.subrange(0, k as int) =~= order);
            lemma_collect_output_monotone(e3, order, last);
        }
        if tx_hashes.len() == 0 {
            return None;
        }
        self.last_decided_round = max_round;
        Some(ConsensusOutput { ordered_tx_hashes: tx_hashes, round_decided: max_round })
    }
}

} // verus!
