//! Read-only questions a node answers about its chain and mempool: where a
//! transaction is (looked up by its hash text), which recent transactions
//! involve an address (looked up by its address text), how much gas a
//! block's transactions reserve, and what a contract's code gives when run
//! read-only. Transactions are found as positions, so a caller can present
//! the entries as it likes.

use vstd::prelude::*;
use crate::block::Block;
use crate::crypto::{address_to_hex, hash_to_hex, spec_hex};
use crate::node::Node;
use crate::opcode::Instruction;
use crate::state::account_of;
use crate::transaction::{tx_hash, Transaction};
use crate::vm::{error_matches, initial_model, reports, spec_run, ExecutionContext, ThunderVm, VmError, VmResult};

verus! {

/// How many blocks, newest first, the address history looks at.
pub const HISTORY_BLOCKS: usize = 101;

/// A transaction's hash as text: `0x` and lowercase hex.
pub open spec fn tx_hash_text(t: Transaction) -> Seq<char> {
    "0x"@ + spec_hex(tx_hash(t))
}

/// The transaction hash as `0x`-prefixed lowercase hex.
pub fn transaction_hash_text(tx: &Transaction) -> (s: String)
    ensures
        s@ == tx_hash_text(*tx),
{
    let h = tx.hash();
    let digits = hash_to_hex(&h);
    let mut s = String::from_str("0x");
    s.append(digits.as_str());
    s
}

/// Where a transaction was found.
#[derive(Debug, Clone, Copy, PartialEq, Eq)]
pub enum TxPosition {
    /// In the mempool, at this index.
    Pending(usize),
    /// In the block at this chain index, at this transaction index.
    Included(usize, usize),
}

/// Whether transaction `t` has hash text `w`.
pub open spec fn hash_text_is(t: Transaction, w: Seq<char>) -> bool {
    tx_hash_text(t) == w
}

/// No transaction of `txs` has hash text `w`.
pub open spec fn none_with_hash_text(txs: Seq<Transaction>, w: Seq<char>) -> bool {
    forall|i: int| 0 <= i < txs.len() ==> !hash_text_is(#[trigger] txs[i], w)
}

/// Position of the first transaction of `txs` with hash text `w`.
fn first_with_hash_text(txs: &Vec<Transaction>, w: &String) -> (r: Option<usize>)
    ensures
        r matches Some(i) ==> i < txs@.len() && hash_text_is(txs@[i as int], w@)
            && none_with_hash_text(txs@.subrange(0, i as int), w@),
        r is None ==> none_with_hash_text(txs@, w@),
{
    let mut i: usize = 0;
    while i < txs.len()
        invariant
            i <= txs@.len(),
            forall|j: int| 0 <= j < i ==> !hash_text_is(#[trigger] txs@[j], w@),
        decreases txs@.len() - i,
    {
        let s = transaction_hash_text(&txs[i]);
        if s == *w {
            proof {
                assert forall|j: int| 0 <= j < i implies !hash_text_is(#[trigger] txs@.subrange(0, i as int)[j], w@) by {
                    assert(txs@.subrange(0, i as int)[j] == txs@[j]);
                }
            }
            return Some(i);
        }
        i += 1;
    }
    None
}

/// Whether transaction `t` sends from or to the address with text `w`.
pub open spec fn involves(t: Transaction, w: Seq<char>) -> bool {
    "0x"@ + spec_hex(t.from@) == w || "0x"@ + spec_hex(t.to@) == w
}

/// Positions `(b, k)` of the transactions among the first `n` of block `b`
/// that involve `w`, last first.
pub open spec fn block_hits(txs: Seq<Transaction>, w: Seq<char>, b: usize, n: nat) -> Seq<(usize, usize)>
    decreases n,
{
    if n == 0 {
        Seq::empty()
    } else {
        let k = (n - 1) as nat;
        let here = if involves(txs[k as int], w) { seq![(b, k as usize)] } else { Seq::empty() };
        here + block_hits(txs, w, b, k)
    }
}

/// The hits among the blocks below index `upto`, at most `left` of them,
/// newest block first.
pub open spec fn history(chain: Seq<Block>, w: Seq<char>, upto: nat, left: nat) -> Seq<(usize, usize)>
    decreases upto,
{
    if upto == 0 || left == 0 {
        Seq::empty()
    } else {
        let b = (upto - 1) as nat;
        block_hits(chain[b as int].transactions@, w, b as usize, chain[b as int].transactions@.len())
            + history(chain, w, b, (left - 1) as nat)
    }
}

impl Node {
    /// Find a transaction by its hash text (`0x` and lowercase hex): first in
    /// the mempool, in order; then in the chain, newest block first, the
    /// first match within a block.
    pub fn find_transaction(&self, hash_text: &str) -> (r: Option<TxPosition>)
        ensures
            r matches Some(TxPosition::Pending(i)) ==> i < self.mempool@.len()
                && hash_text_is(self.mempool@[i as int], hash_text@)
                && none_with_hash_text(self.mempool@.subrange(0, i as int), hash_text@),
            r matches Some(TxPosition::Included(b, k)) ==> {
                &&& none_with_hash_text(self.mempool@, hash_text@)
                &&& b < self.chain@.len()
                &&& k < self.chain@[b as int].transactions@.len()
                &&& hash_text_is(self.chain@[b as int].transactions@[k as int], hash_text@)
                &&& none_with_hash_text(self.chain@[b as int].transactions@.subrange(0, k as int), hash_text@)
                &&& forall|c: int| b < c < self.chain@.len()
                    ==> none_with_hash_text(#[trigger] self.chain@[c].transactions@, hash_text@)
            },
            r is None ==> none_with_hash_text(self.mempool@, hash_text@)
                && forall|c: int| 0 <= c < self.chain@.len()
                    ==> none_with_hash_text(#[trigger] self.chain@[c].transactions@, hash_text@),
    {
        let w = String::from_str(hash_text);
        match first_with_hash_text(&self.mempool, &w) {
            Some(i) => {
                return Some(TxPosition::Pending(i));
            },
            None => {},
        }
        let mut b: usize = self.chain.len();
        while b > 0
            invariant
                b <= self.chain@.len(),
                w@ == hash_text@,
                none_with_hash_text(self.mempool@, hash_text@),
                forall|c: int| b <= c < self.chain@.len()
                    ==> none_with_hash_text(#[trigger] self.chain@[c].transactions@, hash_text@),
            decreases b,
        {
            b -= 1;
            match first_with_hash_text(&self.chain[b].transactions, &w) {
                Some(k) => {
                    return Some(TxPosition::Included(b, k));
                },
                None => {},
            }
        }
        None
    }

    /// The transactions sent from or to the address with text `address_text`
    /// (`0x` and lowercase hex) in the newest `HISTORY_BLOCKS` blocks, as
    /// positions `(block index, transaction index)`: newest block first, and
    /// within a block last transaction first.
    pub fn address_history(&self, address_text: &str) -> (r: Vec<(usize, usize)>)
        ensures
            r@ == history(self.chain@, address_text@, self.chain@.len(), HISTORY_BLOCKS as nat),
    {
        let w = String::from_str(address_text);
        let ghost total = history(self.chain@, w@, self.chain@.len(), HISTORY_BLOCKS as nat);
        let mut out: Vec<(usize, usize)> = Vec::new();
        let mut b: usize = self.chain.len();
        let mut scanned: usize = 0;
        while b > 0 && scanned < HISTORY_BLOCKS
            invariant
                b <= self.chain@.len(),
                scanned <= HISTORY_BLOCKS,
                w@ == address_text@,
                total == history(self.chain@, w@, self.chain@.len(), HISTORY_BLOCKS as nat),
                out@ + history(self.chain@, w@, b as nat, (HISTORY_BLOCKS - scanned) as nat) == total,
            decreases b,
        {
            b -= 1;
            let txs = &self.chain[b].transactions;
            let ghost hits = block_hits(txs@, w@, b, txs@.len());
            let ghost rest = history(self.chain@, w@, b as nat, (HISTORY_BLOCKS - scanned - 1) as nat);
            assert(history(self.chain@, w@, (b + 1) as nat, (HISTORY_BLOCKS - scanned) as nat) == hits + rest);
            let ghost start = out@;
            let mut k: usize = txs.len();
            while k > 0
                invariant
                    k <= txs@.len(),
                    b < self.chain@.len(),
                    txs@ == self.chain@[b as int].transactions@,
                    w@ == address_text@,
                    hits == block_hits(txs@, w@, b, txs@.len()),
                    out@ + block_hits(txs@, w@, b, k as nat) == start + hits,
                decreases k,
            {
                k -= 1;
                let t = &txs[k];
                let from_text = address_to_hex(&t.from);
                let to_text = address_to_hex(&t.to);
                let ghost before = out@;
                if from_text == w || to_text == w {
                    out.push((b, k));
                    assert(block_hits(txs@, w@, b, (k + 1) as nat) == seq![(b, k)] + block_hits(txs@, w@, b, k as nat));
                    assert(out@ + block_hits(txs@, w@, b, k as nat) =~= before + block_hits(txs@, w@, b, (k + 1) as nat));
                } else {
                    assert(block_hits(txs@, w@, b, (k + 1) as nat) =~= block_hits(txs@, w@, b, k as nat));
                }
            }
            assert(out@ =~= start + hits);
            assert(out@ + rest =~= start + (hits + rest));
            scanned += 1;
        }
        assert(history(self.chain@, w@, b as nat, (HISTORY_BLOCKS - scanned) as nat) =~= Seq::<(usize, usize)>::empty());
        assert(out@ =~= out@ + Seq::<(usize, usize)>::empty());
        out
    }
}

/// Gas available to a read-only contract call.
pub const VIEW_CALL_GAS: u64 = 10_000_000;

/// The context of a read-only call of the contract at `to`: no caller (the
/// zero address) and no value.
pub open spec fn is_view_context(ctx: ExecutionContext, to: Seq<u8>, timestamp: u64, height: u64) -> bool {
    &&& ctx.caller@ == Seq::new(20, |i: int| 0u8)
    &&& ctx.contract_address@ == to
    &&& ctx.value == 0
    &&& ctx.timestamp == timestamp
    &&& ctx.block_height == height
}

impl Node {
    /// Run `program` (the decoded code of the contract at `to`) without a
    /// transaction: against a copy of the contract's storage, from no caller
    /// with no value, at the current height, with `VIEW_CALL_GAS` gas.
    /// Nothing in the node changes.
    pub fn view_call(&self, to: &crate::crypto::Address, program: Vec<Instruction>, timestamp: u64) -> (r: Result<VmResult, VmError>)
        requires
            self.chain@.len() > 0,
        ensures
            exists|ctx: ExecutionContext| {
                &&& is_view_context(ctx, to@, timestamp, self.chain@.last().header.height)
                &&& ({
                    let out = spec_run(
                        program@,
                        ctx,
                        initial_model(ctx, VIEW_CALL_GAS, account_of(self.state.accounts(), to@).storage),
                    );
                    match r {
                        Ok(res) => out.1 is None && reports(res, out.0),
                        Err(e) => out.1 matches Some(f) && error_matches(e, f),
                    }
                })
            },
    {
        let account = self.state.get_account(to);
        let ctx = ExecutionContext {
            caller: [0u8; 20],
            contract_address: *to,
            value: 0,
            timestamp,
            block_height: self.height(),
        };
        assert(ctx.caller@ =~= Seq::new(20, |i: int| 0u8));
        let mut vm = ThunderVm::new(program, ctx, VIEW_CALL_GAS, account.storage);
        let r = vm.execute();
        assert(is_view_context(ctx, to@, timestamp, self.chain@.last().header.height));
        assert(initial_model(ctx, VIEW_CALL_GAS, account_of(self.state.accounts(), to@).storage)
            == initial_model(ctx, VIEW_CALL_GAS, account@.storage));
        r
    }
}

/// Sum of the gas limits of `txs`.
pub open spec fn gas_sum(txs: Seq<Transaction>) -> int
    decreases txs.len(),
{
    if txs.len() == 0 {
        0
    } else {
        gas_sum(txs.drop_last()) + txs.last().gas_limit
    }
}

proof fn lemma_gas_sum_prefix(txs: Seq<Transaction>, i: int)
    requires
        0 <= i < txs.len(),
    ensures
        gas_sum(txs.subrange(0, i + 1)) == gas_sum(txs.subrange(0, i)) + txs[i].gas_limit,
        gas_sum(txs.subrange(0, i)) >= 0,
{
    assert(txs.subrange(0, i + 1).drop_last() =~= txs.subrange(0, i));
    lemma_gas_sum_nonneg(txs.subrange(0, i));
}

proof fn lemma_gas_sum_nonneg(txs: Seq<Transaction>)
    ensures
        gas_sum(txs) >= 0,
    decreases txs.len(),
{
    if txs.len() > 0 {
        lemma_gas_sum_nonneg(txs.drop_last());
    }
}

proof fn lemma_gas_sum_mono(txs: Seq<Transaction>, i: int)
    requires
        0 <= i <= txs.len(),
    ensures
        gas_sum(txs.subrange(0, i)) <= gas_sum(txs),
    decreases txs.len() - i,
{
    if i < txs.len() {
        lemma_gas_sum_mono(txs, i + 1);
        lemma_gas_sum_prefix(txs, i);
    } else {
        assert(txs.subrange(0, i) =~= txs);
    }
}

/// The gas a block's transactions reserve: the sum of their gas limits.
pub fn block_gas_used(block: &Block) -> (g: u64)
    requires
        gas_sum(block.transactions@) <= u64::MAX,
    ensures
        g == gas_sum(block.transactions@),
{
    let txs = &block.transactions;
    let mut g: u64 = 0;
    let mut i: usize = 0;
    while i < txs.len()
        invariant
            i <= txs@.len(),
            gas_sum(txs@) <= u64::MAX,
            g == gas_sum(txs@.subrange(0, i as int)),
        decreases txs@.len() - i,
    {
        proof {
            lemma_gas_sum_prefix(txs@, i as int);
            lemma_gas_sum_mono(txs@, i as int + 1);
        }
        g = g + txs[i].gas_limit;
        i += 1;
    }
    assert(txs@.subrange(0, i as int) =~= txs@);
    g
}

} // verus!
