//! Proof of stake: the validator set, registration, stake-weighted proposer
//! selection and slashing. The total stake always equals the sum of the
//! registered validators' stakes.

use vstd::prelude::*;
use rand::{Rng, SeedableRng};
use crate::consensus_types::Validator;
use crate::crypto::{Address, PublicKey};
use crate::keymap::bytes_eq;
use crate::text::{decimal, decimal_text_u64};

verus! {

/// Why a staking operation was refused.
#[derive(Debug, Clone, Copy, PartialEq, Eq, Structural)]
pub enum StakeError {
    BelowMinimumStake { minimum: u64, provided: u64 },
    AlreadyRegistered,
    NotRegistered,
}

/// The message of a staking error.
pub open spec fn stake_error_text(e: StakeError) -> Seq<char> {
    match e {
        StakeError::BelowMinimumStake { minimum, provided } => "stake "@ + decimal(provided as nat) + " is below minimum "@
            + decimal(minimum as nat),
        StakeError::AlreadyRegistered => "validator already registered"@,
        StakeError::NotRegistered => "validator not registered"@,
    }
}

impl StakeError {
    /// The error as text.
    pub fn to_string(&self) -> (s: String)
        ensures
            s@ == stake_error_text(*self),
    {
        match self {
            StakeError::BelowMinimumStake { minimum, provided } => {
                let mut s = String::from_str("stake ");
                s.append(decimal_text_u64(*provided).as_str());
                s.append(" is below minimum ");
                s.append(decimal_text_u64(*minimum).as_str());
                s
            },
            StakeError::AlreadyRegistered => String::from_str("validator already registered"),
            StakeError::NotRegistered => String::from_str("validator not registered"),
        }
    }
}

/// The sum of the stakes of a list of validators.
pub open spec fn stake_sum(vs: Seq<Validator>) -> int
    decreases vs.len(),
{
    if vs.len() == 0 {
        0
    } else {
        stake_sum(vs.drop_last()) + vs.last().stake
    }
}

/// The active validators of a list, in order.
pub open spec fn active_of(vs: Seq<Validator>) -> Seq<Validator>
    decreases vs.len(),
{
    if vs.len() == 0 {
        Seq::empty()
    } else if vs.last().is_active {
        active_of(vs.drop_last()).push(vs.last())
    } else {
        active_of(vs.drop_last())
    }
}

/// Whether `a` may come before `b` in the proposer order: a higher stake
/// first, and among equal stakes the lower address (bytes compared in order).
pub open spec fn ranks_first(a: Validator, b: Validator) -> bool {
    a.stake > b.stake || (a.stake == b.stake && crate::abft::lex_le(a.address@, b.address@))
}

/// Insert `v` into a list in proposer order, after every entry that may come
/// before it.
pub open spec fn insert_by_stake(sorted: Seq<Validator>, v: Validator) -> Seq<Validator>
    decreases sorted.len(),
{
    if sorted.len() == 0 {
        seq![v]
    } else if ranks_first(sorted.last(), v) {
        sorted.push(v)
    } else {
        insert_by_stake(sorted.drop_last(), v).push(sorted.last())
    }
}

/// Whether `a` may come before `b` in the proposer order.
fn ranks_first_exec(a: &Validator, b: &Validator) -> (r: bool)
    ensures
        r == ranks_first(*a, *b),
{
    a.stake > b.stake || (a.stake == b.stake && crate::state::bytes_le(a.address.as_slice(), b.address.as_slice()))
}

/// A list in proposer order: by descending stake, equal stakes by ascending
/// address (an insertion sort; among entries that rank equal the earlier
/// comes first).
pub open spec fn by_stake_desc(vs: Seq<Validator>) -> Seq<Validator>
    decreases vs.len(),
{
    if vs.len() == 0 {
        Seq::empty()
    } else {
        insert_by_stake(by_stake_desc(vs.drop_last()), vs.last())
    }
}

/// The first validator, in list order, at which the running total of stakes
/// exceeds `target`; the last one if none does.
pub open spec fn pick_by_stake(vs: Seq<Validator>, target: u64, cumulative: int) -> Address
    decreases vs.len(),
{
    if vs.len() <= 1 {
        vs[0].address
    } else if target < cumulative + vs[0].stake {
        vs[0].address
    } else {
        pick_by_stake(vs.subrange(1, vs.len() as int), target, cumulative + vs[0].stake)
    }
}

/// The index that a `StdRng` seeded with `seed` draws from `0..bound`.
pub uninterp spec fn spec_seeded_index(seed: Seq<u8>, bound: u64) -> u64;

/// `StdRng::from_seed(seed).gen_range(0..bound)`.
///
/// Trusted: the generator is seeded with the 32 bytes alone, so the draw
/// depends on the seed and the bound only; it lies in `0..bound`.
#[verifier::external_body]
fn seeded_index(seed: &[u8; 32], bound: u64) -> (i: u64)
    requires
        bound > 0,
    ensures
        i == spec_seeded_index(seed@, bound),
        i < bound,
{
    rand::rngs::StdRng::from_seed(*seed).gen_range(0..bound)
}

/// Manages the active set of validators and the staking ledger.
#[derive(Debug)]
pub struct ValidatorSet {
    /// All registered validators, in registration order.
    validators: Vec<Validator>,
    /// Minimum stake required to become a validator.
    pub min_stake: u64,
    /// Total staked coins across all validators.
    total_stake: u64,
}

impl ValidatorSet {
    /// Addresses are distinct and the total is the sum of the stakes.
    pub closed spec fn wf(&self) -> bool {
        &&& forall|i: int, j: int| 0 <= i < j < self.validators@.len() ==> self.validators@[i].address@ != self.validators@[j].address@
        &&& self.total_stake == stake_sum(self.validators@)
    }

    /// The registered validators, in registration order.
    pub closed spec fn members(&self) -> Seq<Validator> {
        self.validators@
    }

    /// The minimum stake.
    pub closed spec fn minimum(&self) -> u64 {
        self.min_stake
    }

    /// The total stake.
    pub closed spec fn total(&self) -> u64 {
        self.total_stake
    }

    /// Position of the validator with `address`, if registered.
    pub open spec fn position_of(&self, address: Seq<u8>) -> Option<int> {
        if exists|i: int| 0 <= i < self.members().len() && self.members()[i].address@ == address {
            Some(choose|i: int| 0 <= i < self.members().len() && self.members()[i].address@ == address)
        } else {
            None
        }
    }

    /// Law: in a well-formed set no two members share an address, and the
    /// total is the sum of the members' stakes.
    pub proof fn lemma_wf(&self)
        requires
            self.wf(),
        ensures
            forall|i: int, j: int|
                0 <= i < j < self.members().len() ==> (#[trigger] self.members()[i]).address@
                    != (#[trigger] self.members()[j]).address@,
            self.total() == stake_sum(self.members()),
    {
    }

    /// Law: in a well-formed set the member at `i` is the one found by its
    /// address.
    pub proof fn lemma_position_of(&self, i: int)
        requires
            self.wf(),
            0 <= i < self.members().len(),
        ensures
            self.position_of(self.members()[i].address@) == Some(i),
    {
        let a = self.members()[i].address@;
        let j = choose|j: int| 0 <= j < self.members().len() && self.members()[j].address@ == a;
        if j != i {
            if j < i {
                assert(self.members()[j].address@ != self.members()[i].address@);
            } else {
                assert(self.members()[i].address@ != self.members()[j].address@);
            }
        }
    }

    /// Law: replacing the member at `i` by one with the same address (as
    /// `add_stake` and `slash` do) keeps every address where it was, so a
    /// lookup after the change finds the changed member.
    pub proof fn lemma_lookup_after_update(before: &ValidatorSet, after: &ValidatorSet, i: int, v: Validator)
        requires
            before.wf(),
            after.wf(),
            0 <= i < before.members().len(),
            v.address@ == before.members()[i].address@,
            after.members() == before.members().update(i, v),
        ensures
            after.position_of(v.address@) == Some(i),
            after.members()[i] == v,
            forall|a: Seq<u8>| #[trigger] after.position_of(a) == before.position_of(a),
    {
        after.lemma_position_of(i);
        assert forall|a: Seq<u8>| #[trigger] after.position_of(a) == before.position_of(a) by {
            let n = before.members().len();
            assert(after.members().len() == n);
            if exists|k: int| 0 <= k < n && before.members()[k].address@ == a {
                let k = choose|k: int| 0 <= k < n && before.members()[k].address@ == a;
                assert(after.members()[k].address@ == a);
                before.lemma_position_of(k);
                after.lemma_position_of(k);
            } else {
                assert forall|k: int| 0 <= k < n implies after.members()[k].address@ != a by {
                    assert(before.members()[k].address@ != a);
                }
            }
        }
    }

    /// Create a new, empty validator set with the given minimum stake.
    pub fn new(min_stake: u64) -> (vs: Self)
        ensures
            vs.wf(),
            vs.members() == Seq::<Validator>::empty(),
            vs.minimum() == min_stake,
            vs.total() == 0,
    {
        ValidatorSet { validators: Vec::new(), min_stake, total_stake: 0 }
    }

    proof fn lemma_sum_bound(vs: Seq<Validator>, i: int)
        requires
            0 <= i < vs.len(),
        ensures
            stake_sum(vs) >= vs[i].stake,
            stake_sum(vs) >= 0,
        decreases vs.len(),
    {
        if i < vs.len() - 1 {
            Self::lemma_sum_bound(vs.drop_last(), i);
        }
        Self::lemma_sum_nonneg(vs.drop_last());
    }

    proof fn lemma_sum_nonneg(vs: Seq<Validator>)
        ensures
            stake_sum(vs) >= 0,
        decreases vs.len(),
    {
        if vs.len() > 0 {
            Self::lemma_sum_nonneg(vs.drop_last());
        }
    }

    /// Changing one validator's stake changes the sum by the difference.
    proof fn lemma_sum_update(vs: Seq<Validator>, i: int, v: Validator)
        requires
            0 <= i < vs.len(),
        ensures
            stake_sum(vs.update(i, v)) == stake_sum(vs) - vs[i].stake + v.stake,
        decreases vs.len(),
    {
        if i < vs.len() - 1 {
            Self::lemma_sum_update(vs.drop_last(), i, v);
            assert(vs.update(i, v).drop_last() =~= vs.drop_last().update(i, v));
        } else {
            assert(vs.update(i, v).drop_last() =~= vs.drop_last());
        }
    }

    /// Removing one validator takes its stake off the sum.
    proof fn lemma_sum_remove(vs: Seq<Validator>, i: int)
        requires
            0 <= i < vs.len(),
        ensures
            stake_sum(vs.remove(i)) == stake_sum(vs) - vs[i].stake,
        decreases vs.len(),
    {
        if i < vs.len() - 1 {
            Self::lemma_sum_remove(vs.drop_last(), i);
            assert(vs.remove(i).drop_last() =~= vs.drop_last().remove(i));
        } else {
            assert(vs.remove(i) =~= vs.drop_last());
        }
    }

    /// Position of `address`, if registered.
    fn find(&self, address: &Address) -> (r: Option<usize>)
        requires
            self.wf(),
        ensures
            r matches Some(i) ==> i < self.members().len() && self.members()[i as int].address@ == address@,
            r is None ==> forall|i: int| 0 <= i < self.members().len() ==> self.members()[i].address@ != address@,
    {
        let mut i: usize = 0;
        while i < self.validators.len()
            invariant
                i <= self.validators@.len(),
                forall|j: int| 0 <= j < i ==> self.validators@[j].address@ != address@,
            decreases self.validators@.len() - i,
        {
            if bytes_eq(&self.validators[i].address, address) {
                return Some(i);
            }
            i += 1;
        }
        None
    }

    /// Register a new validator. Fails if the stake is below the minimum or
    /// the address is already registered.
    pub fn register(&mut self, address: Address, public_key: PublicKey, stake: u64) -> (r: Result<(), StakeError>)
        requires
            old(self).wf(),
            stake >= old(self).minimum() && old(self).position_of(address@) is None ==> old(self).total() + stake
                <= u64::MAX,
        ensures
            final(self).wf(),
            stake < old(self).minimum() ==> r == Err::<(), StakeError>(
                StakeError::BelowMinimumStake { minimum: old(self).minimum(), provided: stake },
            ) && final(self).members() == old(self).members() && final(self).total() == old(self).total(),
            stake >= old(self).minimum() && old(self).position_of(address@) is Some ==> r == Err::<(), StakeError>(
                StakeError::AlreadyRegistered,
            ) && final(self).members() == old(self).members() && final(self).total() == old(self).total(),
            stake >= old(self).minimum() && old(self).position_of(address@) is None ==> r is Ok
                && final(self).members() == old(self).members().push(Validator { address, public_key, stake, is_active: true })
                && final(self).total() == old(self).total() + stake,
            final(self).minimum() == old(self).minimum(),
            r is Err ==> *final(self) == *old(self),
    {
        if stake < self.min_stake {
            return Err(StakeError::BelowMinimumStake { minimum: self.min_stake, provided: stake });
        }
        if let Some(i) = self.find(&address) {
            return Err(StakeError::AlreadyRegistered);
        }
        let ghost before = self.validators@;
        self.validators.push(Validator::new(address, public_key, stake));
        self.total_stake = self.total_stake + stake;
        proof {
            assert(self.validators@.drop_last() =~= before);
        }
        Ok(())
    }

    /// Increase the stake of an existing validator.
    pub fn add_stake(&mut self, address: &Address, amount: u64) -> (r: Result<(), StakeError>)
        requires
            old(self).wf(),
            old(self).position_of(address@) is Some ==> old(self).total() + amount <= u64::MAX,
        ensures
            final(self).wf(),
            final(self).minimum() == old(self).minimum(),
            match old(self).position_of(address@) {
                None => r == Err::<(), StakeError>(StakeError::NotRegistered) && final(self).members() == old(self).members()
                    && final(self).total() == old(self).total(),
                Some(i) => r is Ok && final(self).members() == old(self).members().update(
                    i,
                    Validator { stake: (old(self).members()[i].stake + amount) as u64, ..old(self).members()[i] },
                ) && final(self).total() == old(self).total() + amount,
            },
    {
        let i = match self.find(address) {
            Some(i) => i,
            None => {
                return Err(StakeError::NotRegistered);
            },
        };
        proof {
            Self::lemma_sum_bound(self.validators@, i as int);
            assert(self.position_of(address@) == Some(i as int));
        }
        let mut v = self.validators[i];
        v.stake = v.stake + amount;
        proof { Self::lemma_sum_update(self.validators@, i as int, v); }
        self.validators.set(i, v);
        self.total_stake = self.total_stake + amount;
        Ok(())
    }

    /// Remove a validator from the set and return their stake.
    pub fn unregister(&mut self, address: &Address) -> (r: Result<u64, StakeError>)
        requires
            old(self).wf(),
        ensures
            final(self).wf(),
            final(self).minimum() == old(self).minimum(),
            match old(self).position_of(address@) {
                None => r == Err::<u64, StakeError>(StakeError::NotRegistered) && final(self).members() == old(self).members()
                    && final(self).total() == old(self).total(),
                Some(i) => r == Ok::<u64, StakeError>(old(self).members()[i].stake)
                    && final(self).members() == old(self).members().remove(i)
                    && final(self).total() == old(self).total() - old(self).members()[i].stake,
            },
    {
        let i = match self.find(address) {
            Some(i) => i,
            None => {
                return Err(StakeError::NotRegistered);
            },
        };
        proof {
            Self::lemma_sum_bound(self.validators@, i as int);
            Self::lemma_sum_remove(self.validators@, i as int);
            assert(self.position_of(address@) == Some(i as int));
        }
        let v = self.validators.remove(i);
        self.total_stake = self.total_stake - v.stake;
        Ok(v.stake)
    }

    /// Slash a validator's stake by `amount` (at most its whole stake);
    /// a validator left below the minimum stake is deactivated. Returns the
    /// amount taken.
    pub fn slash(&mut self, address: &Address, amount: u64) -> (r: Result<u64, StakeError>)
        requires
            old(self).wf(),
        ensures
            final(self).wf(),
            final(self).minimum() == old(self).minimum(),
            match old(self).position_of(address@) {
                None => r == Err::<u64, StakeError>(StakeError::NotRegistered) && final(self).members() == old(self).members()
                    && final(self).total() == old(self).total(),
                Some(i) => {
                    let v = old(self).members()[i];
                    let cut = if amount < v.stake { amount } else { v.stake };
                    let left = (v.stake - cut) as u64;
                    &&& r == Ok::<u64, StakeError>(cut)
                    &&& final(self).members() == old(self).members().update(
                        i,
                        Validator { stake: left, is_active: v.is_active && left >= old(self).minimum(), ..v },
                    )
                    &&& final(self).total() == old(self).total() - cut
                },
            },
    {
        let i = match self.find(address) {
            Some(i) => i,
            None => {
                return Err(StakeError::NotRegistered);
            },
        };
        proof {
            Self::lemma_sum_bound(self.validators@, i as int);
            assert(self.position_of(address@) == Some(i as int));
        }
        let mut v = self.validators[i];
        let cut = if amount < v.stake { amount } else { v.stake };
        v.stake = v.stake - cut;
        if v.stake < self.min_stake {
            v.is_active = false;
        }
        proof { Self::lemma_sum_update(self.validators@, i as int, v); }
        self.validators.set(i, v);
        self.total_stake = self.total_stake - cut;
        Ok(cut)
    }

    /// All active validators, by descending stake, equal stakes by ascending
    /// address.
    pub fn active_validators(&self) -> (vs: Vec<Validator>)
        requires
            self.wf(),
        ensures
            vs@ == by_stake_desc(active_of(self.members())),
    {
        let mut sorted: Vec<Validator> = Vec::new();
        let mut i: usize = 0;
        while i < self.validators.len()
            invariant
                i <= self.validators@.len(),
                sorted@ == by_stake_desc(active_of(self.validators@.subrange(0, i as int))),
            decreases self.validators@.len() - i,
        {
            let v = self.validators[i];
            let ghost prev = active_of(self.validators@.subrange(0, i as int));
            proof {
                let sub = self.validators@.subrange(0, i + 1);
                assert(sub.drop_last() =~= self.validators@.subrange(0, i as int));
                assert(sub.last() == v);
                if v.is_active {
                    assert(prev.push(v).drop_last() =~= prev);
                    assert(by_stake_desc(active_of(sub)) == insert_by_stake(by_stake_desc(prev), v));
                } else {
                    assert(active_of(sub) == prev);
                }
            }
            if v.is_active {
                let mut j = sorted.len();
                proof {
                    assert(sorted@.subrange(0, j as int) =~= sorted@);
                    assert(insert_by_stake(sorted@, v) + sorted@.subrange(j as int, sorted@.len() as int) =~= insert_by_stake(sorted@, v));
                }
                while j > 0 && !ranks_first_exec(&sorted[j - 1], &v)
                    invariant
                        j <= sorted@.len(),
                        forall|k: int| j <= k < sorted@.len() ==> !ranks_first(#[trigger] sorted@[k], v),
                        insert_by_stake(sorted@, v) == insert_by_stake(sorted@.subrange(0, j as int), v) + sorted@.subrange(j as int, sorted@.len() as int),
                    decreases j,
                {
                    proof {
                        let pre = sorted@.subrange(0, j as int);
                        assert(pre.drop_last() =~= sorted@.subrange(0, j - 1));
                        assert(insert_by_stake(sorted@.subrange(0, j - 1), v).push(sorted@[j - 1]) + sorted@.subrange(j as int, sorted@.len() as int)
                            =~= insert_by_stake(sorted@.subrange(0, j - 1), v) + sorted@.subrange(j - 1, sorted@.len() as int));
                    }
                    j = j - 1;
                }
                let ghost before = sorted@;
                sorted.insert(j, v);
                proof {
                    let pre = before.subrange(0, j as int);
                    if j == 0 {
                        assert(insert_by_stake(pre, v) =~= seq![v]) by {
                            assert(pre =~= Seq::<Validator>::empty());
                        }
                    } else {
                        assert(insert_by_stake(pre, v) == pre.push(v));
                    }
                    assert(sorted@ =~= insert_by_stake(pre, v) + before.subrange(j as int, before.len() as int));
                }
            }
            i += 1;
        }
        proof {
            assert(self.validators@.subrange(0, i as int) =~= self.validators@);
        }
        sorted
    }

    /// Select a block proposer using stake-weighted deterministic randomness:
    /// the draw from the seed picks a point in the total active stake, and
    /// the validator whose share covers it is chosen.
    pub fn select_proposer(&self, seed: &crate::crypto::Hash) -> (r: Option<Address>)
        requires
            self.wf(),
        ensures
            ({
                let active = by_stake_desc(active_of(self.members()));
                let total = stake_sum(active);
                if active.len() == 0 || total == 0 {
                    r is None
                } else {
                    r == Some(pick_by_stake(active, spec_seeded_index(seed@, total as u64), 0))
                }
            }),
    {
        let active = self.active_validators();
        if active.len() == 0 {
            return None;
        }
        let total = self.active_stake(&active);
        if total == 0 {
            return None;
        }
        let target = seeded_index(seed, total);
        Some(Self::pick(&active, target))
    }

    /// The sum of the stakes in `active`, which are among the registered
    /// validators.
    fn active_stake(&self, active: &Vec<Validator>) -> (total: u64)
        requires
            self.wf(),
            active@ == by_stake_desc(active_of(self.members())),
        ensures
            total == stake_sum(active@),
    {
        proof {
            lemma_active_sum(self.validators@);
        }
        let mut total: u64 = 0;
        let mut i: usize = 0;
        while i < active.len()
            invariant
                i <= active@.len(),
                total == stake_sum(active@.subrange(0, i as int)),
                stake_sum(active@) <= u64::MAX,
            decreases active@.len() - i,
        {
            proof {
                let sub = active@.subrange(0, i + 1);
                assert(sub.drop_last() =~= active@.subrange(0, i as int));
                lemma_prefix_sum(active@, i + 1);
            }
            total = total + active[i].stake;
            i += 1;
        }
        proof {
            assert(active@.subrange(0, i as int) =~= active@);
        }
        total
    }

    /// The validator chosen for a drawn `target`: the first, in the order of
    /// `active`, whose running stake total exceeds `target`.
    pub fn pick(active: &Vec<Validator>, target: u64) -> (a: Address)
        requires
            active@.len() > 0,
            stake_sum(active@) <= u64::MAX,
        ensures
            a == pick_by_stake(active@, target, 0),
    {
        let mut cumulative: u64 = 0;
        let mut i: usize = 0;
        proof {
            assert(active@.subrange(0, 0) =~= Seq::<Validator>::empty());
            assert(active@.subrange(0, active@.len() as int) =~= active@);
        }
        while i < active.len() - 1
            invariant
                active@.len() > 0,
                i < active@.len(),
                cumulative == stake_sum(active@.subrange(0, i as int)),
                stake_sum(active@) <= u64::MAX,
                pick_by_stake(active@, target, 0) == pick_by_stake(active@.subrange(i as int, active@.len() as int), target, cumulative as int),
            decreases active@.len() - i,
        {
            proof {
                lemma_prefix_sum(active@, i + 1);
                let sub = active@.subrange(0, i + 1);
                assert(sub.drop_last() =~= active@.subrange(0, i as int));
                let rest = active@.subrange(i as int, active@.len() as int);
                assert(rest[0] == active@[i as int]);
                assert(rest.subrange(1, rest.len() as int) =~= active@.subrange(i + 1, active@.len() as int));
            }
            let next = cumulative + active[i].stake;
            if target < next {
                return active[i].address;
            }
            cumulative = next;
            i += 1;
        }
        active[i].address
    }

    /// Total number of registered validators.
    pub fn count(&self) -> (n: usize)
        requires
            self.wf(),
        ensures
            n == self.members().len(),
    {
        self.validators.len()
    }

    /// Total number of active validators.
    pub fn active_count(&self) -> (n: usize)
        requires
            self.wf(),
        ensures
            n == active_of(self.members()).len(),
    {
        let mut n: usize = 0;
        let mut i: usize = 0;
        while i < self.validators.len()
            invariant
                i <= self.validators@.len(),
                n == active_of(self.validators@.subrange(0, i as int)).len(),
                n <= i,
            decreases self.validators@.len() - i,
        {
            proof {
                let sub = self.validators@.subrange(0, i + 1);
                assert(sub.drop_last() =~= self.validators@.subrange(0, i as int));
            }
            if self.validators[i].is_active {
                n = n + 1;
            }
            i += 1;
        }
        proof {
            assert(self.validators@.subrange(0, i as int) =~= self.validators@);
        }
        n
    }

    /// Get a validator by address.
    pub fn get(&self, address: &Address) -> (r: Option<Validator>)
        requires
            self.wf(),
        ensures
            match self.position_of(address@) {
                None => r is None,
                Some(i) => r == Some(self.members()[i]),
            },
    {
        match self.find(address) {
            Some(i) => {
                proof { assert(self.position_of(address@) == Some(i as int)); }
                Some(self.validators[i])
            },
            None => None,
        }
    }

    /// The least stake a validator may register with.
    pub fn min_stake(&self) -> (m: u64)
        ensures
            m == self.minimum(),
    {
        self.min_stake
    }

    /// Total amount of coins staked: always the sum of the registered
    /// validators' stakes.
    pub fn total_stake(&self) -> (t: u64)
        requires
            self.wf(),
        ensures
            t == self.total(),
            t == stake_sum(self.members()),
    {
        self.total_stake
    }

    /// The supermajority threshold (⅔ of total stake, plus one).
    pub fn supermajority(&self) -> (s: u64)
        requires
            self.wf(),
            self.total() * 2 <= u64::MAX,
        ensures
            s == self.total() * 2 / 3 + 1,
    {
        self.total_stake * 2 / 3 + 1
    }

}

/// The sum over a prefix is at most the sum over the whole list.
proof fn lemma_prefix_sum(vs: Seq<Validator>, n: int)
    requires
        0 <= n <= vs.len(),
    ensures
        stake_sum(vs.subrange(0, n)) <= stake_sum(vs),
        stake_sum(vs.subrange(0, n)) >= 0,
    decreases vs.len() - n,
{
    if n < vs.len() {
        lemma_prefix_sum(vs, n + 1);
        let sub = vs.subrange(0, n + 1);
        assert(sub.drop_last() =~= vs.subrange(0, n));
        ValidatorSet::lemma_sum_nonneg(vs.subrange(0, n));
    } else {
        assert(vs.subrange(0, n) =~= vs);
        ValidatorSet::lemma_sum_nonneg(vs);
    }
}

/// Ordering by stake keeps the sum; the active ones weigh no more than all.
proof fn lemma_active_sum(vs: Seq<Validator>)
    ensures
        stake_sum(by_stake_desc(active_of(vs))) <= stake_sum(vs),
    decreases vs.len(),
{
    lemma_sort_sum(active_of(vs));
    lemma_active_le(vs);
}

proof fn lemma_active_le(vs: Seq<Validator>)
    ensures
        stake_sum(active_of(vs)) <= stake_sum(vs),
    decreases vs.len(),
{
    if vs.len() > 0 {
        lemma_active_le(vs.drop_last());
        let a = active_of(vs.drop_last());
        assert(a.push(vs.last()).drop_last() =~= a);
    }
}

proof fn lemma_insert_sum(sorted: Seq<Validator>, v: Validator)
    ensures
        stake_sum(insert_by_stake(sorted, v)) == stake_sum(sorted) + v.stake,
    decreases sorted.len(),
{
    if sorted.len() == 0 {
        assert(seq![v].drop_last() =~= Seq::<Validator>::empty());
        assert(stake_sum(seq![v]) == stake_sum(Seq::<Validator>::empty()) + v.stake);
    } else if ranks_first(sorted.last(), v) {
        assert(sorted.push(v).drop_last() =~= sorted);
    } else {
        lemma_insert_sum(sorted.drop_last(), v);
        let ins = insert_by_stake(sorted.drop_last(), v);
        assert(ins.push(sorted.last()).drop_last() =~= ins);
        assert(insert_by_stake(sorted, v) == ins.push(sorted.last()));
        assert(stake_sum(ins.push(sorted.last())) == stake_sum(ins) + sorted.last().stake);
        assert(stake_sum(sorted) == stake_sum(sorted.drop_last()) + sorted.last().stake);
    }
}

proof fn lemma_sort_sum(vs: Seq<Validator>)
    ensures
        stake_sum(by_stake_desc(vs)) == stake_sum(vs),
    decreases vs.len(),
{
    if vs.len() > 0 {
        lemma_sort_sum(vs.drop_last());
        lemma_insert_sum(by_stake_desc(vs.drop_last()), vs.last());
    }
}

proof fn lemma_insert_multiset(sorted: Seq<Validator>, v: Validator)
    ensures
        insert_by_stake(sorted, v).to_multiset() == sorted.to_multiset().insert(v),
    decreases sorted.len(),
{
    broadcast use vstd::seq_lib::to_multiset_build;
    broadcast use vstd::multiset::group_multiset_axioms;
    if sorted.len() == 0 {
        assert(sorted =~= Seq::<Validator>::empty());
        assert(seq![v] =~= sorted.push(v));
        assert(sorted.push(v).to_multiset() =~= sorted.to_multiset().insert(v));
    } else {
        let p = sorted.drop_last();
        assert(p.push(sorted.last()) =~= sorted);
        if !ranks_first(sorted.last(), v) {
            lemma_insert_multiset(p, v);
            assert(insert_by_stake(p, v).push(sorted.last()).to_multiset()
                =~= insert_by_stake(p, v).to_multiset().insert(sorted.last()));
            assert(p.to_multiset().insert(v).insert(sorted.last()) =~= p.to_multiset().insert(sorted.last()).insert(v));
        }
    }
}

proof fn lemma_sort_multiset(vs: Seq<Validator>)
    ensures
        by_stake_desc(vs).to_multiset() == vs.to_multiset(),
    decreases vs.len(),
{
    broadcast use vstd::seq_lib::to_multiset_build;
    if vs.len() == 0 {
        assert(vs =~= Seq::<Validator>::empty());
        assert(by_stake_desc(vs) == vs);
    } else {
        let p = vs.drop_last();
        lemma_sort_multiset(p);
        lemma_insert_multiset(by_stake_desc(p), vs.last());
        assert(p.push(vs.last()) =~= vs);
        assert(p.push(vs.last()).to_multiset() =~= p.to_multiset().insert(vs.last()));
    }
}

proof fn lemma_active_of_contains(vs: Seq<Validator>, v: Validator)
    ensures
        active_of(vs).contains(v) <==> vs.contains(v) && v.is_active,
    decreases vs.len(),
{
    if vs.len() > 0 {
        let p = vs.drop_last();
        lemma_active_of_contains(p, v);
        assert(p.push(vs.last()) =~= vs);
        if vs.last().is_active {
            assert(active_of(vs) == active_of(p).push(vs.last()));
            assert(active_of(p).push(vs.last()).contains(v) <==> active_of(p).contains(v) || v == vs.last()) by {
                if active_of(p).push(vs.last()).contains(v) {
                    let i = choose|i: int| 0 <= i < active_of(p).push(vs.last()).len() && active_of(p).push(vs.last())[i] == v;
                    if i < active_of(p).len() {
                        assert(active_of(p)[i] == v);
                    }
                }
                if active_of(p).contains(v) {
                    let i = choose|i: int| 0 <= i < active_of(p).len() && active_of(p)[i] == v;
                    assert(active_of(p).push(vs.last())[i] == v);
                }
                if v == vs.last() {
                    assert(active_of(p).push(vs.last())[active_of(p).len() as int] == v);
                }
            }
        }
        assert(vs.contains(v) <==> p.contains(v) || v == vs.last()) by {
            if vs.contains(v) {
                let i = choose|i: int| 0 <= i < vs.len() && vs[i] == v;
                if i < p.len() {
                    assert(p[i] == v);
                }
            }
            if p.contains(v) {
                let i = choose|i: int| 0 <= i < p.len() && p[i] == v;
                assert(vs[i] == v);
            }
            if v == vs.last() {
                assert(vs[vs.len() - 1] == v);
            }
        }
    }
}

/// Law: the active-validator list (in proposer order) holds exactly the
/// registered validators that are active, each as often as it is
/// registered, so once each in a well-formed set, whose addresses are
/// distinct.
pub proof fn lemma_active_list(vs: Seq<Validator>)
    ensures
        by_stake_desc(active_of(vs)).to_multiset() == active_of(vs).to_multiset(),
        forall|v: Validator| #[trigger] by_stake_desc(active_of(vs)).contains(v) <==> vs.contains(v) && v.is_active,
{
    broadcast use vstd::seq_lib::to_multiset_contains;
    lemma_sort_multiset(active_of(vs));
    assert forall|v: Validator| #[trigger] by_stake_desc(active_of(vs)).contains(v) <==> vs.contains(v) && v.is_active by {
        lemma_active_of_contains(vs, v);
        assert(by_stake_desc(active_of(vs)).to_multiset().count(v) == active_of(vs).to_multiset().count(v));
    }
}

/// A list in proposer order: each entry may come before every later one.
pub open spec fn in_proposer_order(s: Seq<Validator>) -> bool {
    forall|i: int, j: int| 0 <= i < j < s.len() ==> ranks_first(#[trigger] s[i], #[trigger] s[j])
}

proof fn lemma_ranks_total(a: Validator, b: Validator)
    ensures
        ranks_first(a, b) || ranks_first(b, a),
{
    crate::abft::lemma_lex_total(a.address@, b.address@);
}

proof fn lemma_ranks_trans(a: Validator, b: Validator, c: Validator)
    requires
        ranks_first(a, b),
        ranks_first(b, c),
    ensures
        ranks_first(a, c),
{
    if a.stake == b.stake && b.stake == c.stake {
        crate::abft::lemma_lex_trans(a.address@, b.address@, c.address@);
    }
}

proof fn lemma_insert_in_order(sorted: Seq<Validator>, v: Validator)
    requires
        in_proposer_order(sorted),
    ensures
        in_proposer_order(insert_by_stake(sorted, v)),
    decreases sorted.len(),
{
    broadcast use vstd::seq_lib::to_multiset_contains;
    if sorted.len() == 0 {
    } else if ranks_first(sorted.last(), v) {
        let r = sorted.push(v);
        assert forall|i: int, j: int| 0 <= i < j < r.len() implies ranks_first(#[trigger] r[i], #[trigger] r[j]) by {
            if j == sorted.len() {
                if i < sorted.len() - 1 {
                    lemma_ranks_trans(sorted[i], sorted.last(), v);
                }
            } else {
                assert(r[i] == sorted[i] && r[j] == sorted[j]);
            }
        }
    } else {
        let p = sorted.drop_last();
        let last = sorted.last();
        assert(in_proposer_order(p)) by {
            assert forall|i: int, j: int| 0 <= i < j < p.len() implies ranks_first(#[trigger] p[i], #[trigger] p[j]) by {
                assert(p[i] == sorted[i] && p[j] == sorted[j]);
            }
        }
        lemma_insert_in_order(p, v);
        lemma_insert_multiset(p, v);
        lemma_ranks_total(last, v);
        let q = insert_by_stake(p, v);
        let r = q.push(last);
        assert forall|i: int, j: int| 0 <= i < j < r.len() implies ranks_first(#[trigger] r[i], #[trigger] r[j]) by {
            if j == q.len() {
                let x = q[i];
                assert(q.to_multiset().count(x) > 0);
                assert(p.to_multiset().insert(v).count(x) > 0);
                if x != v {
                    assert(p.to_multiset().count(x) > 0);
                    assert(p.contains(x));
                    let k = choose|k: int| 0 <= k < p.len() && p[k] == x;
                    assert(sorted[k] == x);
                    assert(ranks_first(sorted[k], sorted[sorted.len() - 1]));
                }
            } else {
                assert(r[i] == q[i] && r[j] == q[j]);
            }
        }
    }
}

proof fn lemma_sort_in_order(vs: Seq<Validator>)
    ensures
        in_proposer_order(by_stake_desc(vs)),
    decreases vs.len(),
{
    if vs.len() > 0 {
        lemma_sort_in_order(vs.drop_last());
        lemma_insert_in_order(by_stake_desc(vs.drop_last()), vs.last());
    }
}

proof fn lemma_active_count(m: Seq<Validator>, v: Validator)
    ensures
        active_of(m).to_multiset().count(v) == (if v.is_active { m.to_multiset().count(v) } else { 0 }),
    decreases m.len(),
{
    broadcast use vstd::seq_lib::to_multiset_build;
    broadcast use vstd::multiset::group_multiset_axioms;
    broadcast use vstd::seq_lib::to_multiset_len;
    if m.len() == 0 {
        assert(m.to_multiset().len() == 0);
        assert(active_of(m).to_multiset().len() == 0);
        assert(m.to_multiset() =~= vstd::multiset::Multiset::empty());
        assert(active_of(m).to_multiset() =~= vstd::multiset::Multiset::empty());
    } else {
        let p = m.drop_last();
        lemma_active_count(p, v);
        assert(p.push(m.last()) =~= m);
        assert(m.to_multiset() == p.to_multiset().insert(m.last()));
        if m.last().is_active {
            assert(active_of(p).push(m.last()).to_multiset() == active_of(p).to_multiset().insert(m.last()));
        }
    }
}

/// Two lists in proposer order with the same entries, whose entries with
/// the same address are the same, are the same list.
proof fn lemma_order_unique(r1: Seq<Validator>, r2: Seq<Validator>)
    requires
        in_proposer_order(r1),
        in_proposer_order(r2),
        r1.to_multiset() == r2.to_multiset(),
        forall|a: Validator, b: Validator| r1.contains(a) && r1.contains(b) && a.address@ == b.address@ ==> a == b,
    ensures
        r1 == r2,
    decreases r1.len(),
{
    broadcast use vstd::seq_lib::to_multiset_contains;
    broadcast use vstd::seq_lib::to_multiset_len;
    broadcast use vstd::seq_lib::to_multiset_remove;
    assert(r1.len() == r1.to_multiset().len());
    assert(r2.len() == r2.to_multiset().len());
    if r1.len() == 0 {
        assert(r1 =~= r2);
    } else {
        let a = r1[0];
        let b = r2[0];
        assert(r1.to_multiset().count(a) > 0);
        assert(r2.contains(a));
        assert(r2.to_multiset().count(b) > 0);
        assert(r1.contains(b));
        let ka = choose|k: int| 0 <= k < r2.len() && r2[k] == a;
        let kb = choose|k: int| 0 <= k < r1.len() && r1[k] == b;
        if ka > 0 {
            assert(ranks_first(r2[0], r2[ka]));
        }
        if kb > 0 {
            assert(ranks_first(r1[0], r1[kb]));
        }
        crate::abft::lemma_lex_refl(a.address@);
        crate::abft::lemma_lex_refl(b.address@);
        assert(ranks_first(b, a) && ranks_first(a, b));
        crate::abft::lemma_lex_antisym(a.address@, b.address@);
        assert(a == b);
        let t1 = r1.drop_first();
        let t2 = r2.drop_first();
        assert(r1.remove(0) =~= t1);
        assert(r2.remove(0) =~= t2);
        assert(t1.to_multiset() == r1.to_multiset().remove(a));
        assert(t2.to_multiset() == r2.to_multiset().remove(b));
        assert(in_proposer_order(t1)) by {
            assert forall|i: int, j: int| 0 <= i < j < t1.len() implies ranks_first(#[trigger] t1[i], #[trigger] t1[j]) by {
                assert(t1[i] == r1[i + 1] && t1[j] == r1[j + 1]);
            }
        }
        assert(in_proposer_order(t2)) by {
            assert forall|i: int, j: int| 0 <= i < j < t2.len() implies ranks_first(#[trigger] t2[i], #[trigger] t2[j]) by {
                assert(t2[i] == r2[i + 1] && t2[j] == r2[j + 1]);
            }
        }
        assert forall|x: Validator, y: Validator| t1.contains(x) && t1.contains(y) && x.address@ == y.address@ implies x == y by {
            let i = choose|i: int| 0 <= i < t1.len() && t1[i] == x;
            let j = choose|j: int| 0 <= j < t1.len() && t1[j] == y;
            assert(r1[i + 1] == x && r1[j + 1] == y);
            assert(r1.contains(x) && r1.contains(y));
        }
        lemma_order_unique(t1, t2);
        assert(r1 =~= seq![a] + t1);
        assert(r2 =~= seq![b] + t2);
    }
}

/// Law: the proposer order, and with it the proposer chosen for a seed,
/// depends only on the validators registered, not on the order in which
/// they registered: two member lists with the same entries, whose
/// addresses are distinct, give the same active list in proposer order.
pub proof fn lemma_proposer_order_by_contents(m1: Seq<Validator>, m2: Seq<Validator>)
    requires
        m1.to_multiset() == m2.to_multiset(),
        forall|i: int, j: int| 0 <= i < m1.len() && 0 <= j < m1.len() && (#[trigger] m1[i]).address@ == (#[trigger] m1[j]).address@ ==> i == j,
    ensures
        by_stake_desc(active_of(m1)) == by_stake_desc(active_of(m2)),
{
    broadcast use vstd::seq_lib::to_multiset_contains;
    let s1 = by_stake_desc(active_of(m1));
    let s2 = by_stake_desc(active_of(m2));
    lemma_sort_in_order(active_of(m1));
    lemma_sort_in_order(active_of(m2));
    lemma_sort_multiset(active_of(m1));
    lemma_sort_multiset(active_of(m2));
    assert forall|v: Validator| active_of(m1).to_multiset().count(v) == active_of(m2).to_multiset().count(v) by {
        lemma_active_count(m1, v);
        lemma_active_count(m2, v);
    }
    assert(active_of(m1).to_multiset() =~= active_of(m2).to_multiset());
    lemma_active_list(m1);
    assert forall|a: Validator, b: Validator| s1.contains(a) && s1.contains(b) && a.address@ == b.address@ implies a == b by {
        assert(m1.contains(a) && m1.contains(b));
        let i = choose|i: int| 0 <= i < m1.len() && m1[i] == a;
        let j = choose|j: int| 0 <= j < m1.len() && m1[j] == b;
        assert(m1[i].address@ == m1[j].address@);
    }
    lemma_order_unique(s1, s2);
}

/// Law: two well-formed validator sets with the same members, registered in
/// any order, have the same active list in proposer order, so
/// `select_proposer` picks the same proposer from both for every seed.
pub proof fn lemma_sets_propose_alike(a: &ValidatorSet, b: &ValidatorSet)
    requires
        a.wf(),
        b.wf(),
        a.members().to_multiset() == b.members().to_multiset(),
    ensures
        by_stake_desc(active_of(a.members())) == by_stake_desc(active_of(b.members())),
{
    a.lemma_wf();
    let m = a.members();
    assert forall|i: int, j: int| 0 <= i < m.len() && 0 <= j < m.len() && (#[trigger] m[i]).address@ == (#[trigger] m[j]).address@ implies i == j by {
        if i < j {
            assert(m[i].address@ != m[j].address@);
        } else if j < i {
            assert(m[j].address@ != m[i].address@);
        }
    }
    lemma_proposer_order_by_contents(a.members(), b.members());
}

} // verus!
