//! Types shared by the proof-of-stake aBFT consensus engine: validators,
//! DAG events and the consensus output.

use vstd::prelude::*;
use vstd::bytes::{spec_u64_to_le_bytes, u64_to_le_bytes};
use crate::crypto::{Address, PublicKey, Signature};
use crate::merkle::hashes_view;

verus! {

/// A registered validator in the Proof-of-Stake system.
#[derive(Debug, Clone, Copy)]
pub struct Validator {
    /// On-chain address.
    pub address: Address,
    /// Ed25519 public key.
    pub public_key: PublicKey,
    /// Amount of coins staked.
    pub stake: u64,
    /// Whether this validator is currently active.
    pub is_active: bool,
}

impl Validator {
    /// An active validator.
    pub fn new(address: Address, public_key: PublicKey, stake: u64) -> (v: Self)
        ensures
            v.address == address,
            v.public_key == public_key,
            v.stake == stake,
            v.is_active,
    {
        Self { address, public_key, stake, is_active: true }
    }
}

/// A single event in the aBFT Directed Acyclic Graph.
///
/// Each event references two parents (self-parent from the same creator and
/// an other-parent from a different creator) and optionally carries
/// transaction payloads.
#[derive(Debug, Clone)]
pub struct Event {
    /// Unique hash identifying this event.
    pub hash: crate::crypto::Hash,
    /// Address of the validator who created this event.
    pub creator: Address,
    /// Hash of the creator's previous event (self-parent); zero for the
    /// first event by this creator.
    pub self_parent: crate::crypto::Hash,
    /// Hash of an event from another validator (other-parent); zero for the
    /// very first event in the DAG.
    pub other_parent: crate::crypto::Hash,
    /// Transaction hashes bundled into this event.
    pub payload: Vec<crate::crypto::Hash>,
    /// Consensus round number (computed by `divide_rounds`).
    pub round: u64,
    /// Whether this event is a witness (first event by its creator in its
    /// round).
    pub is_witness: bool,
    /// Fame status: `None` = undecided, `Some(true)` = famous,
    /// `Some(false)` = not famous.
    pub is_famous: Option<bool>,
    /// Consensus timestamp once ordering is finalised.
    pub consensus_timestamp: u64,
    /// The real-world timestamp when the event was created.
    pub timestamp: u64,
    /// Ed25519 signature over the event hash.
    pub signature: Signature,
    /// Topological round-received (set during `find_order`).
    pub round_received: Option<u64>,
}

/// The hashes concatenated.
pub open spec fn flat_hashes(hs: Seq<Seq<u8>>) -> Seq<u8>
    decreases hs.len(),
{
    if hs.len() == 0 {
        Seq::empty()
    } else {
        flat_hashes(hs.drop_last()) + hs.last()
    }
}

/// The bytes hashed and signed for an event: creator, parents, payload
/// hashes and the timestamp (little endian).
pub open spec fn event_signable(e: Event) -> Seq<u8> {
    e.creator@ + e.self_parent@ + e.other_parent@ + flat_hashes(hashes_view(e.payload@)) + spec_u64_to_le_bytes(e.timestamp)
}

/// The same event, field by field.
pub open spec fn same_event(a: Event, b: Event) -> bool {
    &&& a.hash == b.hash
    &&& a.creator == b.creator
    &&& a.self_parent == b.self_parent
    &&& a.other_parent == b.other_parent
    &&& a.payload@ == b.payload@
    &&& a.round == b.round
    &&& a.is_witness == b.is_witness
    &&& a.is_famous == b.is_famous
    &&& a.consensus_timestamp == b.consensus_timestamp
    &&& a.timestamp == b.timestamp
    &&& a.signature == b.signature
    &&& a.round_received == b.round_received
}

impl Event {
    /// Create a new event (hash and signature are computed externally).
    pub fn new(
        creator: Address,
        self_parent: crate::crypto::Hash,
        other_parent: crate::crypto::Hash,
        payload: Vec<crate::crypto::Hash>,
        timestamp: u64,
    ) -> (e: Self)
        ensures
            e.hash@ == Seq::new(32, |i: int| 0u8),
            e.creator == creator,
            e.self_parent == self_parent,
            e.other_parent == other_parent,
            e.payload@ == payload@,
            e.round == 0,
            !e.is_witness,
            e.is_famous is None,
            e.consensus_timestamp == 0,
            e.timestamp == timestamp,
            e.signature@ == Seq::new(64, |i: int| 0u8),
            e.round_received is None,
    {
        let e = Self {
            hash: [0u8; 32],
            creator,
            self_parent,
            other_parent,
            payload,
            round: 0,
            is_witness: false,
            is_famous: None,
            consensus_timestamp: 0,
            timestamp,
            signature: [0u8; 64],
            round_received: None,
        };
        assert(e.hash@ =~= Seq::new(32, |i: int| 0u8));
        assert(e.signature@ =~= Seq::new(64, |i: int| 0u8));
        e
    }

    /// Compute the bytes to be hashed / signed.
    pub fn signable_bytes(&self) -> (b: Vec<u8>)
        ensures
            b@ == event_signable(*self),
    {
        let mut buf: Vec<u8> = Vec::new();
        buf.extend_from_slice(&self.creator);
        buf.extend_from_slice(&self.self_parent);
        buf.extend_from_slice(&self.other_parent);
        let ghost head = buf@;
        let mut i: usize = 0;
        while i < self.payload.len()
            invariant
                i <= self.payload@.len(),
                buf@ == head + flat_hashes(hashes_view(self.payload@.subrange(0, i as int))),
            decreases self.payload@.len() - i,
        {
            buf.extend_from_slice(&self.payload[i]);
            proof {
                let sub = self.payload@.subrange(0, i + 1);
                assert(hashes_view(sub).drop_last() =~= hashes_view(self.payload@.subrange(0, i as int)));
            }
            i += 1;
        }
        proof {
            assert(self.payload@.subrange(0, i as int) =~= self.payload@);
        }
        buf.append(&mut u64_to_le_bytes(self.timestamp));
        assert(buf@ =~= event_signable(*self));
        buf
    }

    /// A copy of this event.
    pub fn duplicate(&self) -> (e: Self)
        ensures
            same_event(*self, e),
    {
        let payload = vstd::slice::slice_to_vec(self.payload.as_slice());
        Self {
            hash: self.hash,
            creator: self.creator,
            self_parent: self.self_parent,
            other_parent: self.other_parent,
            payload,
            round: self.round,
            is_witness: self.is_witness,
            is_famous: self.is_famous,
            consensus_timestamp: self.consensus_timestamp,
            timestamp: self.timestamp,
            signature: self.signature,
            round_received: self.round_received,
        }
    }
}

/// The output of the consensus engine after processing events.
#[derive(Debug, Clone)]
pub struct ConsensusOutput {
    /// Transaction hashes in the finalised total order.
    pub ordered_tx_hashes: Vec<crate::crypto::Hash>,
    /// The consensus round that was just decided.
    pub round_decided: u64,
}

/// The concatenation of 32-byte hashes has 32 bytes per hash, the `j`-th
/// byte of the `i`-th hash at `32 * i + j`.
proof fn lemma_flat_hashes(hs: Seq<Seq<u8>>)
    requires
        forall|i: int| 0 <= i < hs.len() ==> (#[trigger] hs[i]).len() == 32,
    ensures
        flat_hashes(hs).len() == 32 * hs.len(),
        forall|i: int, j: int| 0 <= i < hs.len() && 0 <= j < 32 ==> #[trigger] flat_hashes(hs)[32 * i + j] == hs[i][j],
    decreases hs.len(),
{
    if hs.len() > 0 {
        let p = hs.drop_last();
        lemma_flat_hashes(p);
        assert forall|i: int, j: int| 0 <= i < hs.len() && 0 <= j < 32 implies #[trigger] flat_hashes(hs)[32 * i + j] == hs[i][j] by {
            if i < p.len() {
                assert(p[i] == hs[i]);
            }
        }
    }
}

/// Law: the signed bytes of an event have 20 + 32 + 32 + 8 bytes plus 32 per
/// payload hash, and they determine the creator, both parents, the payload
/// and the timestamp: two events with the same signed bytes agree on all of
/// them.
pub proof fn lemma_event_signable(a: Event, b: Event)
    ensures
        event_signable(a).len() == 92 + 32 * a.payload@.len(),
        event_signable(a) == event_signable(b) ==> {
            &&& a.creator@ == b.creator@
            &&& a.self_parent@ == b.self_parent@
            &&& a.other_parent@ == b.other_parent@
            &&& hashes_view(a.payload@) == hashes_view(b.payload@)
            &&& a.timestamp == b.timestamp
        },
{
    vstd::bytes::lemma_auto_spec_u64_to_from_le_bytes();
    let ha = hashes_view(a.payload@);
    let hb = hashes_view(b.payload@);
    lemma_flat_hashes(ha);
    lemma_flat_hashes(hb);
    let sa = event_signable(a);
    let sb = event_signable(b);
    assert(spec_u64_to_le_bytes(a.timestamp).len() == 8);
    assert(spec_u64_to_le_bytes(b.timestamp).len() == 8);
    assert(sa.len() == 84 + 32 * ha.len() + 8);
    assert(sb.len() == 84 + 32 * hb.len() + 8);
    if sa == sb {
        assert(ha.len() == hb.len());
        let fa = flat_hashes(ha);
        let fb = flat_hashes(hb);
        let ta = spec_u64_to_le_bytes(a.timestamp);
        let tb = spec_u64_to_le_bytes(b.timestamp);
        assert(a.creator@ =~= sa.subrange(0, 20));
        assert(b.creator@ =~= sb.subrange(0, 20));
        assert(a.self_parent@ =~= sa.subrange(20, 52));
        assert(b.self_parent@ =~= sb.subrange(20, 52));
        assert(a.other_parent@ =~= sa.subrange(52, 84));
        assert(b.other_parent@ =~= sb.subrange(52, 84));
        assert(fa =~= sa.subrange(84, 84 + fa.len() as int));
        assert(fb =~= sb.subrange(84, 84 + fb.len() as int));
        assert(ta =~= sa.subrange(84 + fa.len() as int, sa.len() as int));
        assert(tb =~= sb.subrange(84 + fb.len() as int, sb.len() as int));
        assert forall|i: int| 0 <= i < ha.len() implies ha[i] == hb[i] by {
            assert forall|j: int| 0 <= j < 32 implies ha[i][j] == hb[i][j] by {
                assert(fa[32 * i + j] == ha[i][j]);
                assert(fb[32 * i + j] == hb[i][j]);
            }
            assert(ha[i] =~= hb[i]);
        }
        assert(ha =~= hb);
    }
}

} // verus!
