//! A Thunder node: its key pair, world state, chain, mempool, consensus
//! engine, validator set and peers, with the steps that admit transactions,
//! create consensus events, register the node as a validator and turn
//! consensus output into blocks. The clock, the disk and serialisation stay
//! with the caller: the steps take timestamps, contract bytecode and state
//! roots as values.

use vstd::prelude::*;
use crate::abft::AbftConsensus;
use crate::block::Block;
use crate::consensus_types::{event_signable, same_event, Event};
use crate::crypto::{hash_sha256, spec_sha256, spec_sign, Address, KeyPair};
use crate::dag::{has_hash, index_of, no_parent, Dag};
use crate::keymap::bytes_eq;
use crate::merkle::{hash_eq, hashes_view};
use crate::peer::{PeerManager, PeerView};
use crate::pos::ValidatorSet;
use crate::consensus_types::Validator;
use crate::dag::addresses_view;
use crate::pos::{active_of, by_stake_desc, insert_by_stake, stake_sum};
use crate::state::{
    accepted, account_of, apply_or_keep, base_gas, contract_address, fee_of, sat_add, sat_mul, total_cost, transition, AccountView,
    WorldState,
};
use crate::transaction::{same_tx, tx_hash, tx_verifies, Transaction, TransactionKind};

verus! {

/// Configuration for a node.
pub struct NodeConfig {
    pub data_dir: String,
    pub listen_port: u16,
    pub max_peers: usize,
    pub min_stake: u64,
}

impl Default for NodeConfig {
    fn default() -> (c: Self)
        ensures
            c.data_dir@ == "./data"@,
            c.listen_port == 30303,
            c.max_peers == 50,
            c.min_stake == 1000,
    {
        NodeConfig { data_dir: String::from_str("./data"), listen_port: 30303, max_peers: 50, min_stake: 1000 }
    }
}

/// Why a transaction was not admitted to the mempool.
#[derive(Debug, Clone, PartialEq, Eq)]
pub enum NodeError {
    /// The signature does not verify.
    InvalidSignature,
    /// The sender cannot pay the value and the maximum fee.
    InsufficientBalance { required: u64, value: u64, fee: u64, available: u64 },
    /// The sender already has the most pending transactions allowed.
    RateLimited { address: Address, limit: usize },
}

/// Most pending transactions per sender.
pub const MAX_TX_PER_SENDER: usize = 5;

/// How many of the first `upto` transactions are from `from`.
pub open spec fn pending_from(pool: Seq<Transaction>, upto: int, from: Seq<u8>) -> nat
    decreases upto,
{
    if upto <= 0 {
        0
    } else {
        pending_from(pool, upto - 1, from) + if pool[upto - 1].from@ == from { 1nat } else { 0nat }
    }
}

/// Some tip of the DAG was created by someone other than `me`.
pub open spec fn other_tip_exists(dag: Dag, me: Seq<u8>) -> bool {
    exists|i: int| 0 <= i < dag.events().len() && dag.tip_set().contains(#[trigger] dag.events()[i].hash@)
        && dag.events()[i].creator@ != me
}

/// Whether a mempool `pool` over accounts `accounts` admits `tx`, and if
/// not, why: the signature must verify, the sender must afford the value
/// and the maximum fee, and have fewer than `MAX_TX_PER_SENDER` pending.
pub open spec fn admission(pool: Seq<Transaction>, accounts: Map<Seq<u8>, AccountView>, tx: Transaction) -> Result<(), NodeError> {
    let sender = account_of(accounts, tx.from@);
    if !tx_verifies(tx) {
        Err(NodeError::InvalidSignature)
    } else if sender.balance < total_cost(tx) {
        Err(NodeError::InsufficientBalance {
            required: total_cost(tx),
            value: tx.value,
            fee: sat_mul(tx.gas_limit, tx.gas_price),
            available: sender.balance,
        })
    } else if pending_from(pool, pool.len() as int, tx.from@) >= MAX_TX_PER_SENDER {
        Err(NodeError::RateLimited { address: tx.from, limit: MAX_TX_PER_SENDER })
    } else {
        Ok(())
    }
}

/// The hashes of a list of transactions.
pub open spec fn pool_hashes(pool: Seq<Transaction>) -> Seq<Seq<u8>> {
    pool.map_values(|t: Transaction| tx_hash(t))
}

/// A Thunder Blockchain node.
pub struct Node {
    /// This node's key pair (validator identity).
    pub key_pair: KeyPair,
    /// World state (accounts, contracts).
    pub state: WorldState,
    /// The blockchain (ordered list of finalised blocks).
    pub chain: Vec<Block>,
    /// Transaction mempool (pending transactions).
    pub mempool: Vec<Transaction>,
    /// Consensus engine.
    pub consensus: AbftConsensus,
    /// Validator set.
    pub validator_set: ValidatorSet,
    /// Peer manager.
    pub peers: PeerManager,
    /// Node configuration.
    pub config: NodeConfig,
}

impl Node {
    /// The chain is never empty, and the DAG and validator set are well formed.
    pub open spec fn wf(&self) -> bool {
        &&& self.chain@.len() > 0
        &&& self.consensus.dag.wf()
        &&& self.validator_set.wf()
    }

    /// A node at genesis: the chain holds the genesis block only; state,
    /// mempool, DAG, validator set and peers are empty.
    pub fn new(key_pair: KeyPair, config: NodeConfig) -> (n: Self)
        ensures
            n.wf(),
            n.key_pair == key_pair,
            n.chain@.len() == 1,
            n.chain@[0].header.height == 0,
            n.chain@[0].transactions@.len() == 0,
            n.state.accounts() == Map::<Seq<u8>, AccountView>::empty(),
            n.mempool@.len() == 0,
            n.consensus.dag.events().len() == 0,
            n.consensus.validators@.len() == 0,
            n.validator_set.members().len() == 0,
            n.validator_set.minimum() == config.min_stake,
            n.peers.peer_map() == Map::<Seq<char>, PeerView>::empty(),
            n.peers.capacity() == config.max_peers,
            n.config == config,
    {
        let min_stake = config.min_stake;
        let max_peers = config.max_peers;
        let mut chain: Vec<Block> = Vec::new();
        chain.push(Block::genesis());
        Node {
            key_pair,
            state: WorldState::new(),
            chain,
            mempool: Vec::new(),
            consensus: AbftConsensus::new(Vec::new()),
            validator_set: ValidatorSet::new(min_stake),
            peers: PeerManager::new(max_peers),
            config,
        }
    }

    /// The latest block in the chain.
    pub fn latest_block(&self) -> (b: &Block)
        requires
            self.chain@.len() > 0,
        ensures
            *b == self.chain@.last(),
    {
        &self.chain[self.chain.len() - 1]
    }

    /// Current chain height: the latest block's height.
    pub fn height(&self) -> (h: u64)
        requires
            self.chain@.len() > 0,
        ensures
            h == self.chain@.last().header.height,
    {
        self.latest_block().header.height
    }

    /// The block at position `height` of the chain, if any.
    pub fn get_block(&self, height: u64) -> (b: Option<&Block>)
        ensures
            height < self.chain@.len() ==> b == Some(&self.chain@[height as int]),
            height >= self.chain@.len() ==> b is None,
    {
        if height < self.chain.len() as u64 {
            Some(&self.chain[height as usize])
        } else {
            None
        }
    }

    /// Admit a transaction to the mempool: its signature must verify, the
    /// sender must hold its value plus its maximum fee, and the sender may
    /// have at most `MAX_TX_PER_SENDER` pending transactions.
    pub fn add_transaction(&mut self, tx: Transaction) -> (r: Result<(), NodeError>)
        ensures
            r == admission(old(self).mempool@, old(self).state.accounts(), tx),
            r is Ok ==> final(self).mempool@ == old(self).mempool@.push(tx),
            r is Err ==> final(self).mempool@ == old(self).mempool@,
            final(self).state == old(self).state,
            final(self).chain == old(self).chain,
            final(self).consensus == old(self).consensus,
            final(self).validator_set == old(self).validator_set,
            final(self).key_pair == old(self).key_pair,
    {
        if !tx.verify_signature() {
            return Err(NodeError::InvalidSignature);
        }
        let sender = self.state.get_account(&tx.from);
        let fee = tx.max_fee();
        let total = match tx.value.checked_add(fee) {
            Some(t) => t,
            None => u64::MAX,
        };
        if sender.balance < total {
            return Err(NodeError::InsufficientBalance { required: total, value: tx.value, fee, available: sender.balance });
        }
        let mut count: usize = 0;
        let mut i: usize = 0;
        while i < self.mempool.len()
            invariant
                i <= self.mempool@.len(),
                count == pending_from(self.mempool@, i as int, tx.from@),
                count <= i,
            decreases self.mempool@.len() - i,
        {
            if bytes_eq(&self.mempool[i].from, &tx.from) {
                count += 1;
            }
            i += 1;
        }
        if count >= MAX_TX_PER_SENDER {
            return Err(NodeError::RateLimited { address: tx.from, limit: MAX_TX_PER_SENDER });
        }
        self.mempool.push(tx);
        Ok(())
    }

    /// A tip created by someone other than `me`, or zero if there is none.
    fn other_parent_for(dag: &Dag, me: &Address) -> (h: crate::crypto::Hash)
        requires
            dag.wf(),
        ensures
            other_tip_exists(*dag, me@) ==> dag.tip_set().contains(h@)
                && exists|i: int| 0 <= i < dag.events().len() && dag.events()[i].hash@ == h@ && dag.events()[i].creator@ != me@,
            !other_tip_exists(*dag, me@) ==> h@ == no_parent(),
    {
        let zero = [0u8; 32];
        assert(zero@ =~= no_parent());
        let tips = dag.tips();
        let mut k: usize = 0;
        while k < tips.len()
            invariant
                dag.wf(),
                hashes_view(tips@).to_set() == dag.tip_set(),
                k <= tips@.len(),
                forall|j: int, i: int|
                    0 <= j < k && 0 <= i < dag.events().len() && dag.events()[i].hash@ == #[trigger] tips@[j]@
                        ==> #[trigger] dag.events()[i].creator@ == me@,
            decreases tips@.len() - k,
        {
            match dag.get(&tips[k]) {
                Some(e) => {
                    if !bytes_eq(&e.creator, me) {
                        proof {
                            assert(hashes_view(tips@)[k as int] == tips@[k as int]@);
                            assert(hashes_view(tips@).to_set().contains(tips@[k as int]@));
                        }
                        return tips[k];
                    }
                    proof {
                        let c = index_of(dag.events(), tips@[k as int]@)->0;
                        assert forall|i: int| 0 <= i < dag.events().len() && dag.events()[i].hash@ == tips@[k as int]@
                            implies dag.events()[i].creator@ == me@ by {
                            crate::dag::lemma_hashes_distinct(dag, i, c);
                        }
                    }
                },
                None => {
                    proof {
                        assert forall|i: int| 0 <= i < dag.events().len() implies dag.events()[i].hash@ != tips@[k as int]@ by {
                            if dag.events()[i].hash@ == tips@[k as int]@ {
                                assert(has_hash(dag.events(), tips@[k as int]@));
                            }
                        }
                    }
                },
            }
            k += 1;
        }
        proof {
            assert forall|i: int| 0 <= i < dag.events().len() && dag.tip_set().contains(#[trigger] dag.events()[i].hash@)
                implies dag.events()[i].creator@ == me@ by {
                let j = choose|j: int| 0 <= j < hashes_view(tips@).len() && hashes_view(tips@)[j] == dag.events()[i].hash@;
                assert(tips@[j]@ == dag.events()[i].hash@);
            }
        }
        zero
    }

    /// Create a consensus event from the pending transactions, signed by
    /// this node, and add it to the DAG. Its self-parent is this node's
    /// latest event (zero if none); its other-parent a tip created by another
    /// validator (zero if none). Fails only when the DAG already holds an
    /// event with the same hash.
    pub fn create_event(&mut self, timestamp: u64) -> (r: Result<Event, String>)
        requires
            old(self).wf(),
        ensures
            final(self).wf(),
            final(self).mempool == old(self).mempool,
            final(self).state == old(self).state,
            final(self).chain == old(self).chain,
            final(self).validator_set == old(self).validator_set,
            final(self).key_pair == old(self).key_pair,
            final(self).consensus.validators@ == old(self).consensus.validators@,
            final(self).consensus.supermajority == old(self).consensus.supermajority,
            final(self).consensus.last_decided_round == old(self).consensus.last_decided_round,
            ({
                let evs = old(self).consensus.dag.events();
                let me = crate::crypto::spec_address(crate::crypto::spec_public_key(old(self).key_pair.secret()));
                match r {
                    Ok(e) => {
                        &&& e.creator@ == me
                        &&& e.timestamp == timestamp
                        &&& hashes_view(e.payload@) == pool_hashes(old(self).mempool@)
                        &&& e.hash@ == spec_sha256(event_signable(e))
                        &&& e.signature@ == spec_sign(old(self).key_pair.secret(), e.hash@)
                        &&& e.round == 0 && !e.is_witness && e.is_famous is None && e.round_received is None
                        &&& e.consensus_timestamp == 0
                        &&& (forall|i: int| 0 <= i < evs.len() ==> evs[i].creator@ != me) ==> e.self_parent@ == no_parent()
                        &&& (exists|i: int| 0 <= i < evs.len() && evs[i].creator@ == me) ==> exists|i: int| 0 <= i < evs.len()
                            && evs[i].hash@ == e.self_parent@ && evs[i].creator@ == me
                            && forall|j: int| i < j < evs.len() ==> evs[j].creator@ != me
                        &&& other_tip_exists(old(self).consensus.dag, me) ==> old(self).consensus.dag.tip_set().contains(e.other_parent@)
                            && exists|i: int| 0 <= i < evs.len() && evs[i].hash@ == e.other_parent@ && evs[i].creator@ != me
                        &&& !other_tip_exists(old(self).consensus.dag, me) ==> e.other_parent@ == no_parent()
                        &&& !has_hash(evs, e.hash@)
                        &&& final(self).consensus.dag.events().len() == evs.len() + 1
                        &&& final(self).consensus.dag.events().drop_last() == evs
                        &&& same_event(final(self).consensus.dag.events().last(), e)
                    },
                    Err(m) => m@ == "duplicate event hash"@ && final(self).consensus.dag.events() == evs,
                }
            }),
    {
        let ghost evs = self.consensus.dag.events();
        let me = self.key_pair.address();
        let mut tx_hashes: Vec<crate::crypto::Hash> = Vec::new();
        let mut i: usize = 0;
        while i < self.mempool.len()
            invariant
                i <= self.mempool@.len(),
                hashes_view(tx_hashes@) == pool_hashes(self.mempool@.subrange(0, i as int)),
            decreases self.mempool@.len() - i,
        {
            let ghost before = tx_hashes@;
            let h = self.mempool[i].hash();
            tx_hashes.push(h);
            proof {
                assert(hashes_view(tx_hashes@) =~= hashes_view(before).push(h@));
                assert(pool_hashes(self.mempool@.subrange(0, i + 1)) =~= pool_hashes(self.mempool@.subrange(0, i as int)).push(tx_hash(self.mempool@[i as int])));
            }
            i += 1;
        }
        proof {
            assert(self.mempool@.subrange(0, i as int) =~= self.mempool@);
        }
        let zero = [0u8; 32];
        assert(zero@ =~= no_parent());
        let self_parent = match self.consensus.dag.latest_event(&me) {
            Some(e) => e.hash,
            None => zero,
        };
        let other_parent = Self::other_parent_for(&self.consensus.dag, &me);
        let mut event = Event::new(me, self_parent, other_parent, tx_hashes, timestamp);
        event.hash = hash_sha256(event.signable_bytes().as_slice());
        event.signature = self.key_pair.sign(&event.hash);
        let copy = event.duplicate();
        match self.consensus.add_event(copy) {
            Ok(()) => Ok(event),
            Err(e) => Err(e.to_string()),
        }
    }

    /// A signed transaction from this node: build it, sign it, record a copy
    /// in the genesis block and apply it to the state (a failure leaves the
    /// state as it was).
    fn apply_genesis_tx(&mut self, tx: Transaction)
        requires
            old(self).chain@.len() > 0,
            accepted(old(self).state.accounts(), tx) ==> {
                &&& account_of(old(self).state.accounts(), tx.from@).nonce < u64::MAX
                &&& base_gas(tx) <= u64::MAX
                &&& tx.value + fee_of(tx) <= u64::MAX
                &&& tx.kind == TransactionKind::ContractDeploy ==> tx.nonce > 0
            },
        ensures
            final(self).chain@.len() == old(self).chain@.len(),
            final(self).chain@[0].header == old(self).chain@[0].header,
            final(self).chain@[0].transactions@.len() == old(self).chain@[0].transactions@.len() + 1,
            final(self).chain@[0].transactions@.drop_last() == old(self).chain@[0].transactions@,
            same_tx(final(self).chain@[0].transactions@.last(), tx),
            forall|k: int| 0 < k < final(self).chain@.len() ==> final(self).chain@[k] == old(self).chain@[k],
            final(self).state.accounts() == apply_or_keep(old(self).state.accounts(), tx),
            final(self).key_pair == old(self).key_pair,
            final(self).mempool == old(self).mempool,
            final(self).consensus == old(self).consensus,
            final(self).validator_set == old(self).validator_set,
            final(self).peers == old(self).peers,
            final(self).config == old(self).config,
    {
        let copy = tx.duplicate();
        self.chain[0].transactions.push(copy);
        let _ = self.state.apply_transaction(&tx);
    }

    /// Register this node as a validator with `stake`, and make the
    /// consensus engine's validators the active ones (by descending stake).
    /// At genesis (a chain of one block) the node's account is minted
    /// `GENESIS_MINT`, the given contract bytecode is deployed (the genesis
    /// pool with nonce 0, the staking pool with nonce 1), a stake of `stake`
    /// is sent to the genesis pool (nonce 2), all recorded in the genesis
    /// block and applied where the state accepts them, and the state is
    /// committed. The bytecode is what the caller compiled and serialised.
    pub fn register_as_validator(
        &mut self,
        stake: u64,
        genesis_pool_code: Option<Vec<u8>>,
        staking_pool_code: Option<Vec<u8>>,
    ) -> (r: Result<(), String>)
        requires
            old(self).wf(),
            stake >= old(self).validator_set.minimum() && old(self).validator_set.position_of(node_address(old(self).key_pair)) is None
                ==> old(self).validator_set.total() + stake <= u64::MAX,
            old(self).chain@.len() == 1 ==> stake + 21_000 <= u64::MAX,
            old(self).chain@.len() == 1 && genesis_pool_code is Some ==> account_of(
                old(self).state.accounts(),
                node_address(old(self).key_pair),
            ).nonce != 0,
            staking_pool_code matches Some(c) ==> 53_000 + c@.len() * 200 <= u64::MAX,
        ensures
            final(self).wf(),
            final(self).key_pair == old(self).key_pair,
            final(self).mempool == old(self).mempool,
            final(self).validator_set.minimum() == old(self).validator_set.minimum(),
            ({
                let me = node_address(old(self).key_pair);
                let vs = old(self).validator_set;
                match r {
                    Err(m) => {
                        &&& (stake < vs.minimum() ==> m@ == crate::pos::stake_error_text(
                            crate::pos::StakeError::BelowMinimumStake { minimum: vs.minimum(), provided: stake }))
                        &&& (stake >= vs.minimum() ==> vs.position_of(me) is Some && m@ == crate::pos::stake_error_text(
                            crate::pos::StakeError::AlreadyRegistered))
                        &&& *final(self) == *old(self)
                    },
                    Ok(()) => {
                        &&& stake >= vs.minimum() && vs.position_of(me) is None
                        &&& final(self).validator_set.members().len() == vs.members().len() + 1
                        &&& final(self).validator_set.members().drop_last() == vs.members()
                        &&& final(self).validator_set.members().last().address@ == me
                        &&& final(self).validator_set.members().last().public_key@ == crate::crypto::spec_public_key(
                            old(self).key_pair.secret())
                        &&& final(self).validator_set.members().last().stake == stake
                        &&& final(self).validator_set.members().last().is_active
                        &&& addresses_view(final(self).consensus.validators@) == validator_addresses(
                            by_stake_desc(active_of(final(self).validator_set.members())))
                        &&& old(self).chain@.len() != 1 ==> final(self).chain@ == old(self).chain@
                            && final(self).state.accounts() == old(self).state.accounts()
                        &&& old(self).chain@.len() == 1 ==> genesis_done(
                            old(self).key_pair.secret(),
                            stake,
                            opt_view(genesis_pool_code),
                            opt_view(staking_pool_code),
                            old(self).chain@[0],
                            final(self).chain@,
                            old(self).state.accounts(),
                            final(self).state.accounts(),
                        ) && final(self).state.modified() == Map::<Seq<u8>, AccountView>::empty()
                    },
                }
            }),
    {
        let me = self.key_pair.address();
        let pk = self.key_pair.public_key();
        match self.register_validator(me, pk, stake) {
            Ok(()) => {},
            Err(e) => {
                return Err(e);
            },
        }
        if self.chain.len() == 1 {
            let ghost m0 = self.state.accounts();
            let mut account = self.state.get_account(&me);
            account.balance = GENESIS_MINT;
            self.state.set_account(&me, account);
            let ghost m1 = self.state.accounts();
            assert(m1 == minted(m0, me@));
            let ghost t0 = self.chain@[0].transactions@;
            let ghost secret = self.key_pair.secret();
            let zero20 = [0u8; 20];
            assert(zero20@ =~= Seq::new(20, |i: int| 0u8));
            let mut pool_address = zero20;
            proof {
                assert(t0.subrange(t0.len() as int, t0.len() as int) =~= Seq::<Transaction>::empty());
            }
            match genesis_pool_code {
                Some(code) => {
                    let ghost cv = code@;
                    let mut deploy = Transaction::new_deploy(1, 0, me, code, 50_000, 1);
                    deploy.sign(&self.key_pair);
                    let ghost g = deploy;
                    let ghost before_txs = self.chain@[0].transactions@;
                    let ghost acc = self.state.accounts();
                    self.apply_genesis_tx(deploy);
                    proof {
                        lemma_apply_step(m1, before_txs, t0.len() as int, self.chain@[0].transactions@, g, acc, self.state.accounts());
                        assert(genesis_tx(self.chain@[0].transactions@.last(), secret, 0, zero20@, 0, cv, TransactionKind::ContractDeploy));
                    }
                    pool_address = WorldState::derive_contract_address(&me, 0);
                },
                None => {},
            }
            let ghost after_genesis = self.chain@[0].transactions@;
            match staking_pool_code {
                Some(code) => {
                    let ghost cv = code@;
                    let mut deploy = Transaction::new_deploy(1, 1, me, code, 50_000, 1);
                    deploy.sign(&self.key_pair);
                    let ghost g = deploy;
                    let ghost before_txs = self.chain@[0].transactions@;
                    let ghost acc = self.state.accounts();
                    self.apply_genesis_tx(deploy);
                    proof {
                        lemma_apply_step(m1, before_txs, t0.len() as int, self.chain@[0].transactions@, g, acc, self.state.accounts());
                        assert(genesis_tx(self.chain@[0].transactions@.last(), secret, 1, zero20@, 0, cv, TransactionKind::ContractDeploy));
                    }
                },
                None => {},
            }
            let ghost after_staking = self.chain@[0].transactions@;
            let deposit: Vec<u8> = vec![100u8, 101, 112, 111, 115, 105, 116];
            assert(deposit@ =~= seq![100u8, 101, 112, 111, 115, 105, 116]);
            let mut stake_tx = Transaction::new_call(1, 2, me, pool_address, stake, deposit, 50_000, 1);
            stake_tx.kind = TransactionKind::Stake;
            stake_tx.sign(&self.key_pair);
            let ghost g = stake_tx;
            let ghost before_txs = self.chain@[0].transactions@;
            let ghost acc = self.state.accounts();
            self.apply_genesis_tx(stake_tx);
            proof {
                lemma_apply_step(m1, before_txs, t0.len() as int, self.chain@[0].transactions@, g, acc, self.state.accounts());
                let all = self.chain@[0].transactions@;
                let added = all.subrange(t0.len() as int, all.len() as int);
                assert(all.subrange(0, t0.len() as int) =~= t0);
                assert(added.last() == all.last());
                if genesis_pool_code is Some {
                    assert(added[0] == after_genesis[t0.len() as int]);
                }
                if staking_pool_code is Some {
                    assert(added[added.len() - 2] == after_staking.last());
                }
            }
            self.state.commit();
        }
        Ok(())
    }
}

/// Applying a copy of a transaction is applying the transaction.
proof fn lemma_apply_step(
    m1: Map<Seq<u8>, AccountView>,
    before_txs: Seq<Transaction>,
    start: int,
    after_txs: Seq<Transaction>,
    tx: Transaction,
    acc_before: Map<Seq<u8>, AccountView>,
    acc_after: Map<Seq<u8>, AccountView>,
)
    requires
        0 <= start <= before_txs.len(),
        after_txs.len() == before_txs.len() + 1,
        after_txs.drop_last() == before_txs,
        same_tx(after_txs.last(), tx),
        acc_before == apply_all(m1, before_txs.subrange(start, before_txs.len() as int)),
        acc_after == apply_or_keep(acc_before, tx),
    ensures
        acc_after == apply_all(m1, after_txs.subrange(start, after_txs.len() as int)),
{
    let sub = after_txs.subrange(start, after_txs.len() as int);
    assert(sub.drop_last() =~= before_txs.subrange(start, before_txs.len() as int));
    assert(transition(acc_before, sub.last()) == transition(acc_before, tx));
}

/// The amount minted to the genesis validator.
pub const GENESIS_MINT: u64 = 1_000_000_000_000_000_000;

/// The accounts after applying each transaction in turn.
pub open spec fn apply_all(m: Map<Seq<u8>, AccountView>, txs: Seq<Transaction>) -> Map<Seq<u8>, AccountView>
    decreases txs.len(),
{
    if txs.len() == 0 {
        m
    } else {
        apply_or_keep(apply_all(m, txs.drop_last()), txs.last())
    }
}

/// The accounts with `addr`'s balance set to the genesis mint.
pub open spec fn minted(m: Map<Seq<u8>, AccountView>, addr: Seq<u8>) -> Map<Seq<u8>, AccountView> {
    m.insert(addr, AccountView { balance: GENESIS_MINT, ..account_of(m, addr) })
}

/// The address of a key pair.
pub open spec fn node_address(kp: KeyPair) -> Seq<u8> {
    crate::crypto::spec_address(crate::crypto::spec_public_key(kp.secret()))
}

/// The addresses of a list of validators.
pub open spec fn validator_addresses(vs: Seq<Validator>) -> Seq<Seq<u8>> {
    vs.map_values(|v: Validator| v.address@)
}

/// An optional byte vector by view.
pub open spec fn opt_view(o: Option<Vec<u8>>) -> Option<Seq<u8>> {
    match o {
        Some(v) => Some(v@),
        None => None,
    }
}

/// `tx` is the genesis transaction signed with `secret`: chain 1, the given
/// nonce, recipient, value, data and kind, 50 000 gas at price 1.
pub open spec fn genesis_tx(
    tx: Transaction,
    secret: Seq<u8>,
    nonce: u64,
    to: Seq<u8>,
    value: u64,
    data: Seq<u8>,
    kind: TransactionKind,
) -> bool {
    &&& tx.chain_id == 1
    &&& tx.nonce == nonce
    &&& tx.from@ == crate::crypto::spec_address(crate::crypto::spec_public_key(secret))
    &&& tx.to@ == to
    &&& tx.value == value
    &&& tx.data@ == data
    &&& tx.gas_limit == 50_000
    &&& tx.gas_price == 1
    &&& tx.kind == kind
    &&& tx.public_key@ == crate::crypto::spec_public_key(secret)
    &&& tx.signature@ == spec_sign(secret, tx_hash(tx))
}

/// The genesis set-up: the genesis block gained the deployments of the
/// given code and the stake to the genesis pool, and the accounts are the
/// minted ones with those transactions applied in turn.
pub open spec fn genesis_done(
    secret: Seq<u8>,
    stake: u64,
    genesis_code: Option<Seq<u8>>,
    staking_code: Option<Seq<u8>>,
    old_genesis: Block,
    chain: Seq<Block>,
    before: Map<Seq<u8>, AccountView>,
    after: Map<Seq<u8>, AccountView>,
) -> bool {
    let me = crate::crypto::spec_address(crate::crypto::spec_public_key(secret));
    let zero20 = Seq::new(20, |i: int| 0u8);
    let t0 = old_genesis.transactions@;
    let added = chain[0].transactions@.subrange(t0.len() as int, chain[0].transactions@.len() as int);
    let n_deploys = (if genesis_code is Some { 1int } else { 0int }) + (if staking_code is Some { 1int } else { 0int });
    let pool = if genesis_code is Some { contract_address(me, 0) } else { zero20 };
    &&& chain.len() == 1
    &&& chain[0].header == old_genesis.header
    &&& chain[0].transactions@.subrange(0, t0.len() as int) == t0
    &&& added.len() == n_deploys + 1
    &&& (genesis_code matches Some(c) ==> genesis_tx(added[0], secret, 0, zero20, 0, c, TransactionKind::ContractDeploy))
    &&& (staking_code matches Some(c) ==> genesis_tx(added[n_deploys - 1], secret, 1, zero20, 0, c, TransactionKind::ContractDeploy))
    &&& genesis_tx(added[n_deploys], secret, 2, pool, stake, seq![100u8, 101, 112, 111, 115, 105, 116], TransactionKind::Stake)
    &&& after == apply_all(minted(before, me), added)
}

// ── Block production ───────────────────────────────────────────────────────

/// Where a validator with address `a` stands in a list, if anywhere.
pub open spec fn pos_in(ms: Seq<Validator>, a: Seq<u8>) -> Option<int> {
    if exists|i: int| 0 <= i < ms.len() && ms[i].address@ == a {
        Some(choose|i: int| 0 <= i < ms.len() && ms[i].address@ == a)
    } else {
        None
    }
}

/// The first transaction of the pool with hash `h`, if any.
pub open spec fn first_with_hash(pool: Seq<Transaction>, h: Seq<u8>) -> Option<int> {
    if exists|k: int| 0 <= k < pool.len() && tx_hash(pool[k]) == h {
        Some(choose|k: int| 0 <= k < pool.len() && tx_hash(pool[k]) == h && forall|j: int| 0 <= j < k ==> tx_hash(pool[j]) != h)
    } else {
        None
    }
}

/// The validators after a stake transaction: a registered sender's stake
/// grows by the value; otherwise the sender is registered with the value as
/// stake, unless that is below the minimum.
pub open spec fn staked(ms: Seq<Validator>, minimum: u64, tx: Transaction) -> Seq<Validator> {
    match pos_in(ms, tx.from@) {
        Some(i) => ms.update(i, Validator { stake: (ms[i].stake + tx.value) as u64, ..ms[i] }),
        None => if tx.value < minimum {
            ms
        } else {
            ms.push(Validator { address: tx.from, public_key: tx.public_key, stake: tx.value, is_active: true })
        },
    }
}

/// The validators after an unstake transaction: the sender leaves the set.
pub open spec fn unstaked(ms: Seq<Validator>, tx: Transaction) -> Seq<Validator> {
    match pos_in(ms, tx.from@) {
        Some(i) => ms.remove(i),
        None => ms,
    }
}

/// The state that block production works on.
pub ghost struct Production {
    pub mempool: Seq<Transaction>,
    pub members: Seq<Validator>,
    pub accounts: Map<Seq<u8>, AccountView>,
    pub block_txs: Seq<Transaction>,
}

/// One ordered transaction hash: the first pending transaction with it
/// leaves the mempool; an unstake by the genesis validator is dropped;
/// otherwise stakes and unstakes update the validators, the transaction is
/// applied where the state accepts it, and it joins the block.
pub open spec fn produce_step(p: Production, h: Seq<u8>, minimum: u64, genesis: Seq<u8>) -> Production {
    match first_with_hash(p.mempool, h) {
        None => p,
        Some(k) => {
            let tx = p.mempool[k];
            let pool = p.mempool.remove(k);
            if tx.kind == TransactionKind::Unstake && tx.from@ == genesis {
                Production { mempool: pool, ..p }
            } else {
                let ms = if tx.kind == TransactionKind::Stake {
                    staked(p.members, minimum, tx)
                } else if tx.kind == TransactionKind::Unstake {
                    unstaked(p.members, tx)
                } else {
                    p.members
                };
                Production { mempool: pool, members: ms, accounts: apply_or_keep(p.accounts, tx), block_txs: p.block_txs.push(tx) }
            }
        },
    }
}

/// Production over the ordered hashes, in order.
pub open spec fn produce_all(p: Production, hs: Seq<Seq<u8>>, minimum: u64, genesis: Seq<u8>) -> Production
    decreases hs.len(),
{
    if hs.len() == 0 {
        p
    } else {
        produce_step(produce_all(p, hs.drop_last(), minimum, genesis), hs.last(), minimum, genesis)
    }
}

/// A sum over the transactions of a pool.
pub open spec fn pool_sum(pool: Seq<Transaction>, f: spec_fn(Transaction) -> int) -> int
    decreases pool.len(),
{
    if pool.len() == 0 {
        0
    } else {
        pool_sum(pool.drop_last(), f) + f(pool.last())
    }
}

/// The value a transaction stakes.
pub open spec fn staked_value() -> spec_fn(Transaction) -> int {
    |t: Transaction| if t.kind == TransactionKind::Stake { t.value as int } else { 0 }
}

/// The most fee a transaction pays.
pub open spec fn max_fee_of() -> spec_fn(Transaction) -> int {
    |t: Transaction| sat_mul(t.gas_limit, t.gas_price) as int
}

/// Each pending transaction can be applied without overflow.
pub open spec fn pool_fits(pool: Seq<Transaction>) -> bool {
    forall|k: int| 0 <= k < pool.len() ==> {
        let t = #[trigger] pool[k];
        &&& t.nonce < u64::MAX
        &&& base_gas(t) <= u64::MAX
        &&& t.value + fee_of(t) <= u64::MAX
        &&& t.kind == TransactionKind::ContractDeploy ==> t.nonce > 0
    }
}

proof fn lemma_pool_sum_remove(pool: Seq<Transaction>, k: int, f: spec_fn(Transaction) -> int)
    requires
        0 <= k < pool.len(),
    ensures
        pool_sum(pool, f) == pool_sum(pool.remove(k), f) + f(pool[k]),
    decreases pool.len(),
{
    if k == pool.len() - 1 {
        assert(pool.remove(k) =~= pool.drop_last());
    } else {
        lemma_pool_sum_remove(pool.drop_last(), k, f);
        assert(pool.remove(k).drop_last() =~= pool.drop_last().remove(k));
        assert(pool.remove(k).last() == pool.last());
    }
}

proof fn lemma_pool_sum_nonneg(pool: Seq<Transaction>, f: spec_fn(Transaction) -> int)
    requires
        forall|t: Transaction| #[trigger] f(t) >= 0,
    ensures
        pool_sum(pool, f) >= 0,
    decreases pool.len(),
{
    if pool.len() > 0 {
        lemma_pool_sum_nonneg(pool.drop_last(), f);
        assert(f(pool.last()) >= 0);
    }
}

/// Update the validators for a stake or unstake transaction (see `staked`
/// and `unstaked`); other transactions leave them alone.
fn settle_stake(vs: &mut ValidatorSet, tx: &Transaction)
    requires
        old(vs).wf(),
        old(vs).total() + (if tx.kind == TransactionKind::Stake { tx.value as int } else { 0 }) <= u64::MAX,
    ensures
        final(vs).wf(),
        final(vs).minimum() == old(vs).minimum(),
        final(vs).members() == if tx.kind == TransactionKind::Stake {
            staked(old(vs).members(), old(vs).minimum(), *tx)
        } else if tx.kind == TransactionKind::Unstake {
            unstaked(old(vs).members(), *tx)
        } else {
            old(vs).members()
        },
        final(vs).total() <= old(vs).total() + (if tx.kind == TransactionKind::Stake { tx.value as int } else { 0 }),
{
    if tx.kind == TransactionKind::Stake {
        match vs.get(&tx.from) {
            Some(_) => {
                let _ = vs.add_stake(&tx.from, tx.value);
            },
            None => {
                let _ = vs.register(tx.from, tx.public_key, tx.value);
            },
        }
    } else if tx.kind == TransactionKind::Unstake {
        let _ = vs.unregister(&tx.from);
    }
}

impl Node {
    /// The first pending transaction with hash `h`.
    fn find_pending(&self, h: &crate::crypto::Hash) -> (r: Option<usize>)
        ensures
            match first_with_hash(self.mempool@, h@) {
                None => r is None,
                Some(k) => r == Some(k as usize),
            },
            r matches Some(j) ==> j < self.mempool@.len() && first_with_hash(self.mempool@, h@) == Some(j as int),
    {
        let mut j: usize = 0;
        while j < self.mempool.len()
            invariant
                j <= self.mempool@.len(),
                forall|i: int| 0 <= i < j ==> tx_hash(#[trigger] self.mempool@[i]) != h@,
            decreases self.mempool@.len() - j,
        {
            let th = self.mempool[j].hash();
            if hash_eq(&th, h) {
                proof {
                    let pool = self.mempool@;
                    assert(tx_hash(pool[j as int]) == h@);
                    let k = choose|k: int| 0 <= k < pool.len() && tx_hash(pool[k]) == h@ && forall|i: int| 0 <= i < k ==> tx_hash(pool[i]) != h@;
                    assert(k == j) by {
                        if k < j {
                            assert(tx_hash(pool[k]) != h@);
                        }
                        if k > j {
                            assert(tx_hash(pool[j as int]) != h@);
                        }
                    }
                }
                return Some(j);
            }
            j += 1;
        }
        None
    }

    /// One step of `include_transactions` (see `produce_step`).
    #[verifier::rlimit(40)]
    fn include_one(&mut self, h: &crate::crypto::Hash, genesis_validator: &Address, block_txs: &mut Vec<Transaction>)
        requires
            old(self).wf(),
            genesis_validator@ == old(self).chain@[0].header.validator@,
            pool_fits(old(self).mempool@),
            old(self).validator_set.total() + pool_sum(old(self).mempool@, staked_value()) <= u64::MAX,
        ensures
            final(self).wf(),
            ({
                let before = Production {
                    mempool: old(self).mempool@,
                    members: old(self).validator_set.members(),
                    accounts: old(self).state.accounts(),
                    block_txs: old(block_txs)@,
                };
                let after = produce_step(before, h@, old(self).validator_set.minimum(), genesis_validator@);
                &&& final(self).mempool@ == after.mempool
                &&& final(self).validator_set.members() == after.members
                &&& final(self).state.accounts() == after.accounts
                &&& final(block_txs)@ == after.block_txs
            }),
            pool_fits(final(self).mempool@),
            final(self).validator_set.total() + pool_sum(final(self).mempool@, staked_value()) <= u64::MAX,
            pool_sum(final(block_txs)@, max_fee_of()) + pool_sum(final(self).mempool@, max_fee_of())
                <= pool_sum(old(block_txs)@, max_fee_of()) + pool_sum(old(self).mempool@, max_fee_of()),
            final(self).validator_set.minimum() == old(self).validator_set.minimum(),
            final(self).chain == old(self).chain,
            final(self).consensus == old(self).consensus,
            final(self).key_pair == old(self).key_pair,
            final(self).peers == old(self).peers,
            final(self).config == old(self).config,
    {
        match self.find_pending(h) {
            None => {},
            Some(j) => {
                let ghost pool = self.mempool@;
                let tx = self.mempool.remove(j);
                proof {
                    lemma_pool_sum_remove(pool, j as int, staked_value());
                    lemma_pool_sum_remove(pool, j as int, max_fee_of());
                    lemma_pool_sum_nonneg(self.mempool@, staked_value());
                    assert(pool[j as int] == tx);
                    assert forall|i: int| 0 <= i < self.mempool@.len() implies ({
                        let t = #[trigger] self.mempool@[i];
                        &&& t.nonce < u64::MAX
                        &&& base_gas(t) <= u64::MAX
                        &&& t.value + fee_of(t) <= u64::MAX
                        &&& t.kind == TransactionKind::ContractDeploy ==> t.nonce > 0
                    }) by {
                        let i0 = if i < j { i } else { i + 1 };
                        assert(self.mempool@[i] == pool[i0]);
                    }
                    let t = pool[j as int];
                    assert(t.nonce < u64::MAX);
                }
                if tx.kind == TransactionKind::Unstake && bytes_eq(&tx.from, genesis_validator) {
                } else {
                    settle_stake(&mut self.validator_set, &tx);
                    self.state.apply_or_skip(&tx);
                    let ghost bt = block_txs@;
                    block_txs.push(tx);
                    proof {
                        assert(block_txs@.drop_last() =~= bt);
                    }
                }
            },
        }
    }

    /// Move the pending transactions named by `ordered` into a block's
    /// transaction list, in order (see `produce_step`).
    fn include_transactions(&mut self, ordered: &Vec<crate::crypto::Hash>) -> (block_txs: Vec<Transaction>)
        requires
            old(self).wf(),
            pool_fits(old(self).mempool@),
            old(self).validator_set.total() + pool_sum(old(self).mempool@, staked_value()) <= u64::MAX,
        ensures
            final(self).wf(),
            ({
                let p0 = Production {
                    mempool: old(self).mempool@,
                    members: old(self).validator_set.members(),
                    accounts: old(self).state.accounts(),
                    block_txs: Seq::empty(),
                };
                let p = produce_all(p0, hashes_view(ordered@), old(self).validator_set.minimum(), old(self).chain@[0].header.validator@);
                &&& final(self).mempool@ == p.mempool
                &&& final(self).validator_set.members() == p.members
                &&& final(self).state.accounts() == p.accounts
                &&& block_txs@ == p.block_txs
            }),
            pool_sum(block_txs@, max_fee_of()) + pool_sum(final(self).mempool@, max_fee_of()) <= pool_sum(old(self).mempool@, max_fee_of()),
            final(self).validator_set.minimum() == old(self).validator_set.minimum(),
            final(self).chain == old(self).chain,
            final(self).consensus == old(self).consensus,
            final(self).key_pair == old(self).key_pair,
            final(self).peers == old(self).peers,
            final(self).config == old(self).config,
    {
        let ghost p0 = Production {
            mempool: self.mempool@,
            members: self.validator_set.members(),
            accounts: self.state.accounts(),
            block_txs: Seq::empty(),
        };
        let ghost hs = hashes_view(ordered@);
        let ghost minimum = self.validator_set.minimum();
        let ghost genesis = self.chain@[0].header.validator@;
        let ghost m0 = self.mempool@;
        let genesis_validator = self.chain[0].header.validator;
        let mut block_txs: Vec<Transaction> = Vec::new();
        let mut k: usize = 0;
        while k < ordered.len()
            invariant
                self.wf(),
                self.chain == old(self).chain,
                self.consensus == old(self).consensus,
                self.key_pair == old(self).key_pair,
                self.peers == old(self).peers,
                self.config == old(self).config,
                genesis_validator@ == genesis,
                genesis == self.chain@[0].header.validator@,
                hs == hashes_view(ordered@),
                m0 == old(self).mempool@,
                p0.mempool == m0,
                p0.members == old(self).validator_set.members(),
                p0.accounts == old(self).state.accounts(),
                p0.block_txs == Seq::<Transaction>::empty(),
                minimum == self.validator_set.minimum(),
                k <= ordered@.len(),
                ({
                    let p = produce_all(p0, hs.subrange(0, k as int), minimum, genesis);
                    &&& self.mempool@ == p.mempool
                    &&& self.validator_set.members() == p.members
                    &&& self.state.accounts() == p.accounts
                    &&& block_txs@ == p.block_txs
                }),
                pool_fits(self.mempool@),
                self.validator_set.total() + pool_sum(self.mempool@, staked_value()) <= u64::MAX,
                pool_sum(block_txs@, max_fee_of()) + pool_sum(self.mempool@, max_fee_of()) <= pool_sum(m0, max_fee_of()),
            decreases ordered@.len() - k,
        {
            proof {
                assert(hs.subrange(0, k + 1).drop_last() =~= hs.subrange(0, k as int));
                assert(hs.subrange(0, k + 1).last() == ordered@[k as int]@);
            }
            self.include_one(&ordered[k], &genesis_validator, &mut block_txs);
            k += 1;
        }
        proof {
            assert(hs.subrange(0, k as int) =~= hs);
        }
        block_txs
    }
}

/// The subsidy added to the fees of a block.
pub const BLOCK_SUBSIDY: u64 = 10_000_000;

/// The base fee of a block of `n` transactions: 1, raised above 10 000
/// transactions by one plus one per 1 000 beyond, at most 10.
pub open spec fn base_fee_for(n: nat) -> u64 {
    let b: int = if n > 10_000 { 2 + (n - 10_000) / 1000 } else { 1 };
    if b > 10 { 10 } else { b as u64 }
}

/// The validator reward of a block: half of its transactions' maximum fees
/// plus the subsidy (the other half is burned).
pub open spec fn block_reward(txs: Seq<Transaction>) -> u64 {
    ((pool_sum(txs, max_fee_of()) + BLOCK_SUBSIDY) / 2) as u64
}

/// The validators of a list other than `me`, in order.
pub open spec fn others_of(vs: Seq<Validator>, me: Seq<u8>) -> Seq<Validator>
    decreases vs.len(),
{
    if vs.len() == 0 {
        Seq::empty()
    } else if vs.last().address@ != me {
        others_of(vs.drop_last(), me).push(vs.last())
    } else {
        others_of(vs.drop_last(), me)
    }
}

/// A validator's share of the reward, in proportion to its stake.
pub open spec fn share(v: Validator, reward: u64, total: int) -> u64 {
    ((v.stake * reward) / total) as u64
}

/// The accounts after crediting each validator its share.
pub open spec fn distribute(m: Map<Seq<u8>, AccountView>, vs: Seq<Validator>, reward: u64, total: int) -> Map<Seq<u8>, AccountView>
    decreases vs.len(),
{
    if vs.len() == 0 {
        m
    } else {
        let m1 = distribute(m, vs.drop_last(), reward, total);
        let v = vs.last();
        let a = account_of(m1, v.address@);
        m1.insert(v.address@, AccountView { balance: sat_add(a.balance, share(v, reward, total)), ..a })
    }
}

/// The accounts after paying the reward: the genesis validator's node
/// shares it among the other active validators by stake (nobody is paid
/// when they hold no stake); any other node keeps it.
pub open spec fn rewarded(
    m: Map<Seq<u8>, AccountView>,
    members: Seq<Validator>,
    me: Seq<u8>,
    genesis: Seq<u8>,
    reward: u64,
) -> Map<Seq<u8>, AccountView> {
    if genesis == me {
        let others = others_of(by_stake_desc(active_of(members)), me);
        let t = stake_sum(others);
        if t > 0 {
            distribute(m, others, reward, t)
        } else {
            m
        }
    } else {
        let a = account_of(m, me);
        m.insert(me, AccountView { balance: sat_add(a.balance, reward), ..a })
    }
}

proof fn lemma_active_sum(vs: Seq<Validator>)
    ensures
        0 <= stake_sum(active_of(vs)) <= stake_sum(vs),
    decreases vs.len(),
{
    if vs.len() > 0 {
        let t = active_of(vs.drop_last());
        lemma_active_sum(vs.drop_last());
        assert(t.push(vs.last()).drop_last() =~= t);
    }
    lemma_sum_nonneg(active_of(vs));
}

proof fn lemma_others_sum(vs: Seq<Validator>, me: Seq<u8>)
    ensures
        0 <= stake_sum(others_of(vs, me)) <= stake_sum(vs),
    decreases vs.len(),
{
    if vs.len() > 0 {
        let t = others_of(vs.drop_last(), me);
        lemma_others_sum(vs.drop_last(), me);
        assert(t.push(vs.last()).drop_last() =~= t);
    }
    lemma_sum_nonneg(others_of(vs, me));
}

proof fn lemma_sum_nonneg(vs: Seq<Validator>)
    ensures
        stake_sum(vs) >= 0,
    decreases vs.len(),
{
    if vs.len() > 0 {
        lemma_sum_nonneg(vs.drop_last());
    }
}

proof fn lemma_insert_sum(sorted: Seq<Validator>, v: Validator)
    ensures
        stake_sum(insert_by_stake(sorted, v)) == stake_sum(sorted) + v.stake,
    decreases sorted.len(),
{
    if sorted.len() > 0 && !crate::pos::ranks_first(sorted.last(), v) {
        lemma_insert_sum(sorted.drop_last(), v);
        let t = insert_by_stake(sorted.drop_last(), v);
        assert(t.push(sorted.last()).drop_last() =~= t);
        assert(insert_by_stake(sorted, v) == t.push(sorted.last()));
        assert(stake_sum(t.push(sorted.last())) == stake_sum(t) + sorted.last().stake);
        assert(stake_sum(sorted) == stake_sum(sorted.drop_last()) + sorted.last().stake);
    } else if sorted.len() > 0 {
        assert(sorted.push(v).drop_last() =~= sorted);
        assert(insert_by_stake(sorted, v) == sorted.push(v));
        assert(stake_sum(sorted.push(v)) == stake_sum(sorted) + v.stake);
    } else {
        assert(seq![v].drop_last() =~= Seq::<Validator>::empty());
        assert(seq![v].last() == v);
        assert(insert_by_stake(sorted, v) == seq![v]);
        assert(stake_sum(Seq::<Validator>::empty()) == 0);
        assert(stake_sum(seq![v]) == stake_sum(seq![v].drop_last()) + seq![v].last().stake);
    }
}

proof fn lemma_sorted_sum(vs: Seq<Validator>)
    ensures
        stake_sum(by_stake_desc(vs)) == stake_sum(vs),
    decreases vs.len(),
{
    if vs.len() > 0 {
        lemma_sorted_sum(vs.drop_last());
        lemma_insert_sum(by_stake_desc(vs.drop_last()), vs.last());
    }
}

impl Node {
    /// Pay the reward of a block of `block_txs`; returns its base fee and
    /// the validator reward.
    fn pay_rewards(&mut self, block_txs: &Vec<Transaction>) -> (r: (u64, u64))
        requires
            old(self).wf(),
            pool_sum(block_txs@, max_fee_of()) + BLOCK_SUBSIDY <= u64::MAX,
        ensures
            final(self).wf(),
            r.0 == base_fee_for(block_txs@.len()),
            r.1 == block_reward(block_txs@),
            final(self).state.accounts() == rewarded(
                old(self).state.accounts(),
                old(self).validator_set.members(),
                node_address(old(self).key_pair),
                old(self).chain@[0].header.validator@,
                r.1,
            ),
            final(self).mempool == old(self).mempool,
            final(self).chain == old(self).chain,
            final(self).consensus == old(self).consensus,
            final(self).validator_set == old(self).validator_set,
            final(self).key_pair == old(self).key_pair,
            final(self).peers == old(self).peers,
            final(self).config == old(self).config,
    {
        let n = block_txs.len();
        let mut base_fee: u64 = 1;
        if n as u64 > 10_000 {
            base_fee = base_fee + 1 + (n as u64 - 10_000) / 1000;
        }
        if base_fee > 10 {
            base_fee = 10;
        }
        let mut burned: u64 = 0;
        let mut i: usize = 0;
        while i < block_txs.len()
            invariant
                i <= block_txs@.len(),
                burned == pool_sum(block_txs@.subrange(0, i as int), max_fee_of()),
                pool_sum(block_txs@, max_fee_of()) + BLOCK_SUBSIDY <= u64::MAX,
            decreases block_txs@.len() - i,
        {
            proof {
                let sub = block_txs@.subrange(0, i + 1);
                assert(sub.drop_last() =~= block_txs@.subrange(0, i as int));
                lemma_prefix_pool_sum(block_txs@, i + 1);
            }
            burned = burned + block_txs[i].max_fee();
            i += 1;
        }
        proof {
            assert(block_txs@.subrange(0, i as int) =~= block_txs@);
        }
        let reward = (burned + BLOCK_SUBSIDY) / 2;
        let me = self.key_pair.address();
        let genesis = self.chain[0].header.validator;
        if bytes_eq(&genesis, &me) {
            let active = self.validator_set.active_validators();
            let total_all = self.validator_set.total_stake();
            let mut others: Vec<crate::consensus_types::Validator> = Vec::new();
            let mut total_other: u64 = 0;
            let mut k: usize = 0;
            proof {
                lemma_active_sum(self.validator_set.members());
                lemma_sorted_sum(active_of(self.validator_set.members()));
                lemma_others_sum(active@, me@);
            }
            while k < active.len()
                invariant
                    self.wf(),
                    self.mempool == old(self).mempool,
                    self.chain == old(self).chain,
                    self.consensus == old(self).consensus,
                    self.validator_set == old(self).validator_set,
                    self.key_pair == old(self).key_pair,
                    self.peers == old(self).peers,
                    self.config == old(self).config,
                    k <= active@.len(),
                    others@ == others_of(active@.subrange(0, k as int), me@),
                    total_other == stake_sum(others@),
                    stake_sum(others_of(active@, me@)) <= total_all,
                decreases active@.len() - k,
            {
                proof {
                    let sub = active@.subrange(0, k + 1);
                    assert(sub.drop_last() =~= active@.subrange(0, k as int));
                    lemma_prefix_others(active@, me@, k + 1);
                }
                if !bytes_eq(&active[k].address, &me) {
                    proof {
                        let t = others_of(active@.subrange(0, k as int), me@);
                        assert(t.push(active@[k as int]).drop_last() =~= t);
                        assert(others_of(active@.subrange(0, k + 1), me@) == t.push(active@[k as int]));
                    }
                    total_other = total_other + active[k].stake;
                    others.push(active[k]);
                }
                k += 1;
            }
            proof {
                assert(active@.subrange(0, k as int) =~= active@);
            }
            if total_other > 0 {
                let ghost m0 = self.state.accounts();
                let mut j: usize = 0;
                while j < others.len()
                    invariant
                        self.wf(),
                        self.mempool == old(self).mempool,
                        self.chain == old(self).chain,
                        self.consensus == old(self).consensus,
                        self.validator_set == old(self).validator_set,
                        self.key_pair == old(self).key_pair,
                        self.peers == old(self).peers,
                        self.config == old(self).config,
                        j <= others@.len(),
                        total_other > 0,
                        total_other == stake_sum(others@),
                        self.state.accounts() == distribute(m0, others@.subrange(0, j as int), reward, total_other as int),
                    decreases others@.len() - j,
                {
                    let v = others[j];
                    proof {
                        let sub = others@.subrange(0, j + 1);
                        assert(sub.drop_last() =~= others@.subrange(0, j as int));
                        assert((v.stake as int) * (reward as int) <= u128::MAX) by (nonlinear_arith)
                            requires
                                v.stake <= u64::MAX,
                                reward <= u64::MAX,
                        ;
                    }
                    let proportion = (v.stake as u128 * reward as u128) / (total_other as u128);
                    let mut acc = self.state.get_account(&v.address);
                    acc.balance = match acc.balance.checked_add(proportion as u64) {
                        Some(b) => b,
                        None => u64::MAX,
                    };
                    self.state.set_account(&v.address, acc);
                    j += 1;
                }
                proof {
                    assert(others@.subrange(0, j as int) =~= others@);
                }
            }
        } else {
            let mut acc = self.state.get_account(&me);
            acc.balance = match acc.balance.checked_add(reward) {
                Some(b) => b,
                None => u64::MAX,
            };
            self.state.set_account(&me, acc);
        }
        (base_fee, reward)
    }
}

proof fn lemma_prefix_pool_sum(txs: Seq<Transaction>, n: int)
    requires
        0 <= n <= txs.len(),
    ensures
        0 <= pool_sum(txs.subrange(0, n), max_fee_of()) <= pool_sum(txs, max_fee_of()),
    decreases txs.len() - n,
{
    if n < txs.len() {
        lemma_prefix_pool_sum(txs, n + 1);
        assert(txs.subrange(0, n + 1).drop_last() =~= txs.subrange(0, n));
    } else {
        assert(txs.subrange(0, n) =~= txs);
    }
    lemma_pool_sum_nonneg(txs.subrange(0, n), max_fee_of());
}

proof fn lemma_prefix_others(vs: Seq<Validator>, me: Seq<u8>, n: int)
    requires
        0 <= n <= vs.len(),
    ensures
        stake_sum(others_of(vs.subrange(0, n), me)) <= stake_sum(others_of(vs, me)),
    decreases vs.len() - n,
{
    if n < vs.len() {
        lemma_prefix_others(vs, me, n + 1);
        assert(vs.subrange(0, n + 1).drop_last() =~= vs.subrange(0, n));
        let t = others_of(vs.subrange(0, n), me);
        assert(t.push(vs[n]).drop_last() =~= t);
        lemma_sum_nonneg(t);
    } else {
        assert(vs.subrange(0, n) =~= vs);
    }
}

/// A block being produced: its transactions, base fee and reward, waiting
/// for the state root.
pub struct PendingBlock {
    pub transactions: Vec<Transaction>,
    pub base_fee: u64,
    pub reward: u64,
}

impl Node {
    /// Run one round of consensus and gather the block it allows: the
    /// ordered pending transactions are taken from the mempool, stakes and
    /// unstakes settled, the transactions applied and the reward paid (see
    /// `produce_step` and `rewarded`). `None` when consensus orders nothing
    /// or no pending transaction was ordered. The caller computes the state
    /// root of the modified accounts and seals the block with `seal_block`.
    pub fn try_produce_block(&mut self) -> (r: Option<PendingBlock>)
        requires
            old(self).wf(),
            crate::abft::rounds_below(old(self).consensus.dag.events(), old(self).consensus.dag.events().len() as int),
            pool_fits(old(self).mempool@),
            old(self).validator_set.total() + pool_sum(old(self).mempool@, staked_value()) <= u64::MAX,
            pool_sum(old(self).mempool@, max_fee_of()) + BLOCK_SUBSIDY <= u64::MAX,
        ensures
            final(self).wf(),
            final(self).chain == old(self).chain,
            final(self).key_pair == old(self).key_pair,
            exists|out: Option<crate::consensus_types::ConsensusOutput>| {
                &&& #[trigger] crate::abft::processed(old(self).consensus, final(self).consensus, out)
                &&& match out {
                    None => r is None && final(self).mempool == old(self).mempool
                        && final(self).state.accounts() == old(self).state.accounts()
                        && final(self).validator_set.members() == old(self).validator_set.members(),
                    Some(o) => {
                        let p0 = Production {
                            mempool: old(self).mempool@,
                            members: old(self).validator_set.members(),
                            accounts: old(self).state.accounts(),
                            block_txs: Seq::empty(),
                        };
                        let me = node_address(old(self).key_pair);
                        let genesis = old(self).chain@[0].header.validator@;
                        let p = produce_all(p0, hashes_view(o.ordered_tx_hashes@), old(self).validator_set.minimum(), genesis);
                        &&& final(self).mempool@ == p.mempool
                        &&& final(self).validator_set.members() == p.members
                        &&& p.block_txs.len() == 0 ==> r is None && final(self).state.accounts() == p.accounts
                        &&& p.block_txs.len() > 0 ==> (r matches Some(pb) && pb.transactions@ == p.block_txs
                            && pb.base_fee == base_fee_for(p.block_txs.len()) && pb.reward == block_reward(p.block_txs)
                            && final(self).state.accounts() == rewarded(p.accounts, p.members, me, genesis, pb.reward))
                    },
                }
            },
    {
        let ghost c0 = self.consensus;
        let output = self.consensus.process();
        let ghost c1 = self.consensus;
        let o = match output {
            Some(o) => o,
            None => {
                assert(crate::abft::processed(c0, c1, None));
                return None;
            },
        };
        let ghost go = Some(o);
        proof {
            assert(crate::abft::processed(c0, c1, go));
        }
        let block_txs = self.include_transactions(&o.ordered_tx_hashes);
        if block_txs.len() == 0 {
            return None;
        }
        proof {
            lemma_pool_sum_nonneg(self.mempool@, max_fee_of());
        }
        let (base_fee, reward) = self.pay_rewards(&block_txs);
        Some(PendingBlock { transactions: block_txs, base_fee, reward })
    }

    /// Seal a produced block: build it on the latest block with the given
    /// state root and timestamp, sign it with this node's key, commit the
    /// state and append the block to the chain. Returns the block.
    pub fn seal_block(&mut self, pending: PendingBlock, state_root: crate::crypto::Hash, timestamp: u64) -> (b: Block)
        requires
            old(self).wf(),
            old(self).chain@.last().header.height < u64::MAX,
        ensures
            final(self).wf(),
            final(self).chain@.len() == old(self).chain@.len() + 1,
            final(self).chain@.drop_last() == old(self).chain@,
            final(self).chain@.last().header == b.header,
            final(self).chain@.last().transactions@.len() == b.transactions@.len(),
            forall|i: int| 0 <= i < b.transactions@.len() ==> same_tx(#[trigger] final(self).chain@.last().transactions@[i], b.transactions@[i]),
            b.transactions@ == pending.transactions@,
            b.header.height == old(self).chain@.last().header.height + 1,
            b.header.prev_hash@ == crate::block::header_hash(old(self).chain@.last().header),
            b.header.timestamp == timestamp,
            b.header.state_root == state_root,
            b.header.validator@ == node_address(old(self).key_pair),
            b.header.validator_pubkey@ == crate::crypto::spec_public_key(old(self).key_pair.secret()),
            b.header.base_fee == pending.base_fee,
            b.header.reward == pending.reward,
            crate::block::tx_root_matches(b),
            crate::block::block_verifies(b),
            final(self).state.accounts() == old(self).state.accounts(),
            final(self).state.modified() == Map::<Seq<u8>, AccountView>::empty(),
            final(self).mempool == old(self).mempool,
            final(self).consensus == old(self).consensus,
            final(self).validator_set == old(self).validator_set,
            final(self).key_pair == old(self).key_pair,
    {
        let me = self.key_pair.address();
        let pk = self.key_pair.public_key();
        let mut block = Block::new(
            self.latest_block(),
            pending.transactions,
            state_root,
            me,
            pk,
            timestamp,
            pending.base_fee,
            pending.reward,
        );
        block.sign(&self.key_pair);
        self.state.commit();
        let copy = block.duplicate();
        self.chain.push(copy);
        block
    }
}

impl Node {
    /// Register a validator on behalf of someone else and make the
    /// consensus engine's validators the active ones (by descending stake).
    pub fn register_validator(&mut self, address: Address, public_key: crate::crypto::PublicKey, stake: u64) -> (r: Result<(), String>)
        requires
            old(self).wf(),
            stake >= old(self).validator_set.minimum() && old(self).validator_set.position_of(address@) is None
                ==> old(self).validator_set.total() + stake <= u64::MAX,
        ensures
            final(self).wf(),
            final(self).state == old(self).state,
            final(self).chain == old(self).chain,
            final(self).mempool == old(self).mempool,
            final(self).key_pair == old(self).key_pair,
            final(self).peers == old(self).peers,
            final(self).config == old(self).config,
            final(self).consensus.dag == old(self).consensus.dag,
            r is Err ==> *final(self) == *old(self),
            final(self).validator_set.minimum() == old(self).validator_set.minimum(),
            ({
                let vs = old(self).validator_set;
                match r {
                    Err(m) => {
                        &&& (stake < vs.minimum() ==> m@ == crate::pos::stake_error_text(
                            crate::pos::StakeError::BelowMinimumStake { minimum: vs.minimum(), provided: stake }))
                        &&& (stake >= vs.minimum() ==> vs.position_of(address@) is Some && m@ == crate::pos::stake_error_text(
                            crate::pos::StakeError::AlreadyRegistered))
                        &&& final(self).validator_set.members() == vs.members()
                    },
                    Ok(()) => {
                        &&& stake >= vs.minimum() && vs.position_of(address@) is None
                        &&& final(self).validator_set.members() == vs.members().push(
                            Validator { address, public_key, stake, is_active: true })
                        &&& addresses_view(final(self).consensus.validators@) == validator_addresses(
                            by_stake_desc(active_of(final(self).validator_set.members())))
                    },
                }
            }),
    {
        match self.validator_set.register(address, public_key, stake) {
            Ok(()) => {},
            Err(e) => {
                return Err(e.to_string());
            },
        }
        let active = self.validator_set.active_validators();
        let mut addrs: Vec<Address> = Vec::new();
        let mut i: usize = 0;
        while i < active.len()
            invariant
                i <= active@.len(),
                addresses_view(addrs@) == validator_addresses(active@.subrange(0, i as int)),
            decreases active@.len() - i,
        {
            let ghost before = addrs@;
            addrs.push(active[i].address);
            proof {
                assert(addresses_view(addrs@) =~= addresses_view(before).push(active@[i as int].address@));
                assert(validator_addresses(active@.subrange(0, i + 1)) =~= validator_addresses(active@.subrange(0, i as int)).push(active@[i as int].address@));
            }
            i += 1;
        }
        proof {
            assert(active@.subrange(0, i as int) =~= active@);
        }
        self.consensus.validators = addrs;
        Ok(())
    }
}

impl Node {
    /// Whether block production stays within machine integers: rounds leave
    /// room to grow, each pending transaction can be applied, and the stakes
    /// and fees of the pending transactions fit.
    pub fn production_fits(&self) -> (b: bool)
        requires
            self.wf(),
        ensures
            b == (crate::abft::rounds_below(self.consensus.dag.events(), self.consensus.dag.events().len() as int)
                && pool_fits(self.mempool@)
                && self.validator_set.total() + pool_sum(self.mempool@, staked_value()) <= u64::MAX
                && pool_sum(self.mempool@, max_fee_of()) + BLOCK_SUBSIDY <= u64::MAX),
    {
        let ghost evs = self.consensus.dag.events();
        let n = self.consensus.dag.len();
        let mut rounds_ok = true;
        let mut i: usize = 0;
        while i < n
            invariant
                self.consensus.dag.wf(),
                evs == self.consensus.dag.events(),
                n == evs.len(),
                i <= n,
                rounds_ok == forall|j: int| 0 <= j < i ==> #[trigger] evs[j].round + n < u64::MAX,
            decreases n - i,
        {
            let r = self.consensus.dag.event_at(i).round;
            if (r as u128) + (n as u128) >= 0xffff_ffff_ffff_ffffu128 {
                rounds_ok = false;
            }
            proof {
                if !rounds_ok {
                    assert(!(forall|j: int| 0 <= j < i + 1 ==> #[trigger] evs[j].round + n < u64::MAX) || evs[i as int].round + n >= u64::MAX);
                }
            }
            i += 1;
        }
        let total = self.validator_set.total_stake();
        let mut fits = true;
        let mut staked: u128 = total as u128;
        let mut fees: u128 = BLOCK_SUBSIDY as u128;
        let mut k: usize = 0;
        while k < self.mempool.len()
            invariant
                k <= self.mempool@.len(),
                total == self.validator_set.total(),
                fits == forall|j: int| 0 <= j < k ==> {
                    let t = #[trigger] self.mempool@[j];
                    &&& t.nonce < u64::MAX
                    &&& base_gas(t) <= u64::MAX
                    &&& t.value + fee_of(t) <= u64::MAX
                    &&& t.kind == TransactionKind::ContractDeploy ==> t.nonce > 0
                },
                staked == total + pool_sum(self.mempool@.subrange(0, k as int), staked_value()),
                fees == BLOCK_SUBSIDY + pool_sum(self.mempool@.subrange(0, k as int), max_fee_of()),
                staked <= (k + 1) * 0xffff_ffff_ffff_ffffu128,
                fees <= (k + 1) * 0xffff_ffff_ffff_ffffu128,
            decreases self.mempool@.len() - k,
        {
            let t = &self.mempool[k];
            let is_deploy = t.kind == TransactionKind::ContractDeploy;
            let gas: u128 = if is_deploy { 53_000u128 + (t.data.len() as u128) * 200 } else { 21_000u128 };
            let fee: u128 = if gas > 0xffff_ffff_ffff_ffffu128 {
                0
            } else {
                let g = gas as u64;
                match g.checked_mul(t.gas_price) {
                    Some(f) => f as u128,
                    None => 0xffff_ffff_ffff_ffffu128,
                }
            };
            let ok = t.nonce < u64::MAX && gas <= 0xffff_ffff_ffff_ffffu128 && (t.value as u128) + fee <= 0xffff_ffff_ffff_ffffu128
                && (!is_deploy || t.nonce > 0);
            if !ok {
                fits = false;
            }
            proof {
                let sub = self.mempool@.subrange(0, k + 1);
                assert(sub.drop_last() =~= self.mempool@.subrange(0, k as int));
                assert(sub.last() == self.mempool@[k as int]);
                if gas <= 0xffff_ffff_ffff_ffffu128 {
                    assert(fee == fee_of(*t));
                }
                assert(ok == {
                    &&& t.nonce < u64::MAX
                    &&& base_gas(*t) <= u64::MAX
                    &&& t.value + fee_of(*t) <= u64::MAX
                    &&& t.kind == TransactionKind::ContractDeploy ==> t.nonce > 0
                });
                assert((k + 1) * 0xffff_ffff_ffff_ffffu128 + 0xffff_ffff_ffff_ffffu128 == (k + 2) * 0xffff_ffff_ffff_ffffu128) by (nonlinear_arith);
                assert((k + 2) * 0xffff_ffff_ffff_ffffu128 <= 0xffff_ffff_ffff_ffff_ffff_ffff_ffff_ffffu128) by (nonlinear_arith)
                    requires
                        k < 0xffff_ffff_ffff_ffffu128,
                ;
            }
            if t.kind == TransactionKind::Stake {
                staked = staked + t.value as u128;
            }
            let max_fee = t.max_fee();
            fees = fees + max_fee as u128;
            k += 1;
        }
        proof {
            assert(self.mempool@.subrange(0, k as int) =~= self.mempool@);
        }
        rounds_ok && fits && staked <= 0xffff_ffff_ffff_ffffu128 && fees <= 0xffff_ffff_ffff_ffffu128
    }
}

/// The suggested gas price: 1, plus 5 per pending transaction.
pub fn suggested_gas_price(pending: usize) -> (p: u64)
    requires
        5 * pending + 1 <= u64::MAX,
    ensures
        p == 5 * pending + 1,
{
    (pending as u64) * 5 + 1
}

} // verus!
