//! Blocks and block headers. Each block links to its predecessor by the
//! predecessor's header hash and commits to its transactions by a Merkle
//! root.

use vstd::prelude::*;
use vstd::bytes::{spec_u64_to_le_bytes, u64_to_le_bytes};
use crate::crypto::{hash_sha256, spec_sha256, spec_sign, spec_verify, verify_signature, Address, KeyPair, PublicKey, Signature};
use crate::merkle::{compute_merkle_root, hash_eq, hashes_view, spec_merkle_root};
use crate::transaction::{same_tx, tx_hash, Transaction};

verus! {

/// The header of a block — contains all metadata but not the transactions.
#[derive(Debug, Clone)]
pub struct BlockHeader {
    /// Block height (0 = genesis).
    pub height: u64,
    /// Unix timestamp (seconds).
    pub timestamp: u64,
    /// Hash of the previous block.
    pub prev_hash: crate::crypto::Hash,
    /// Merkle root of the world-state after applying this block.
    pub state_root: crate::crypto::Hash,
    /// Merkle root of the transactions in this block.
    pub tx_root: crate::crypto::Hash,
    /// Address of the validator who proposed this block.
    pub validator: Address,
    /// Validator's public key.
    pub validator_pubkey: PublicKey,
    /// Base fee burned per transaction.
    pub base_fee: u64,
    /// Total payout received by the validator (subsidy plus tips).
    pub reward: u64,
    /// Validator's signature over the header hash.
    pub signature: Signature,
}

/// The bytes a header hash covers: every field but the signature, numbers
/// little endian.
pub open spec fn header_bytes(h: BlockHeader) -> Seq<u8> {
    spec_u64_to_le_bytes(h.height) + spec_u64_to_le_bytes(h.timestamp) + h.prev_hash@ + h.state_root@ + h.tx_root@
        + h.validator@ + h.validator_pubkey@ + spec_u64_to_le_bytes(h.base_fee) + spec_u64_to_le_bytes(h.reward)
}

/// The header hash.
pub open spec fn header_hash(h: BlockHeader) -> Seq<u8> {
    spec_sha256(header_bytes(h))
}

impl BlockHeader {
    /// Compute the hash of this header (excluding the signature field).
    pub fn hash(&self) -> (h: crate::crypto::Hash)
        ensures
            h@ == header_hash(*self),
    {
        let mut buf: Vec<u8> = Vec::new();
        buf.append(&mut u64_to_le_bytes(self.height));
        buf.append(&mut u64_to_le_bytes(self.timestamp));
        buf.extend_from_slice(&self.prev_hash);
        buf.extend_from_slice(&self.state_root);
        buf.extend_from_slice(&self.tx_root);
        buf.extend_from_slice(&self.validator);
        buf.extend_from_slice(&self.validator_pubkey);
        buf.append(&mut u64_to_le_bytes(self.base_fee));
        buf.append(&mut u64_to_le_bytes(self.reward));
        assert(buf@ =~= header_bytes(*self));
        hash_sha256(buf.as_slice())
    }
}

/// A complete block: header + ordered list of transactions.
#[derive(Debug, Clone)]
pub struct Block {
    pub header: BlockHeader,
    pub transactions: Vec<Transaction>,
}

/// The hashes of a list of transactions.
pub open spec fn tx_hashes(txs: Seq<Transaction>) -> Seq<Seq<u8>> {
    txs.map_values(|t: Transaction| tx_hash(t))
}

/// The transaction root commits to exactly these transactions.
pub open spec fn tx_root_matches(b: Block) -> bool {
    b.header.tx_root@ == spec_merkle_root(tx_hashes(b.transactions@))
}

/// The header signature verifies under the header's validator key.
pub open spec fn block_verifies(b: Block) -> bool {
    spec_verify(b.header.validator_pubkey@, header_hash(b.header), b.header.signature@)
}

/// The SHA-256 hashes of a list of transactions.
fn hash_all(txs: &Vec<Transaction>) -> (hs: Vec<crate::crypto::Hash>)
    ensures
        hashes_view(hs@) == tx_hashes(txs@),
{
    let mut hs: Vec<crate::crypto::Hash> = Vec::new();
    let mut i: usize = 0;
    while i < txs.len()
        invariant
            i <= txs@.len(),
            hs@.len() == i,
            forall|j: int| 0 <= j < i ==> #[trigger] hs@[j]@ == tx_hash(txs@[j]),
        decreases txs@.len() - i,
    {
        hs.push(txs[i].hash());
        i += 1;
    }
    assert(hashes_view(hs@) =~= tx_hashes(txs@));
    hs
}

impl Block {
    /// A copy of this block.
    pub fn duplicate(&self) -> (b: Self)
        ensures
            b.header == self.header,
            b.transactions@.len() == self.transactions@.len(),
            forall|i: int| 0 <= i < self.transactions@.len() ==> same_tx(#[trigger] b.transactions@[i], self.transactions@[i]),
    {
        let mut txs: Vec<Transaction> = Vec::new();
        let mut i: usize = 0;
        while i < self.transactions.len()
            invariant
                i <= self.transactions@.len(),
                txs@.len() == i,
                forall|j: int| 0 <= j < i ==> same_tx(#[trigger] txs@[j], self.transactions@[j]),
            decreases self.transactions@.len() - i,
        {
            txs.push(self.transactions[i].duplicate());
            i += 1;
        }
        let h = &self.header;
        Block {
            header: BlockHeader {
                height: h.height,
                timestamp: h.timestamp,
                prev_hash: h.prev_hash,
                state_root: h.state_root,
                tx_root: h.tx_root,
                validator: h.validator,
                validator_pubkey: h.validator_pubkey,
                base_fee: h.base_fee,
                reward: h.reward,
                signature: h.signature,
            },
            transactions: txs,
        }
    }

    /// Create the genesis block (height 0, no predecessor, no transactions).
    pub fn genesis() -> (b: Self)
        ensures
            b.header.height == 0,
            b.header.timestamp == 0,
            b.header.prev_hash@ == Seq::new(32, |i: int| 0u8),
            b.header.state_root@ == Seq::new(32, |i: int| 0u8),
            b.header.tx_root@ == Seq::new(32, |i: int| 0u8),
            b.header.validator@ == Seq::new(20, |i: int| 0u8),
            b.header.validator_pubkey@ == Seq::new(32, |i: int| 0u8),
            b.header.base_fee == 1,
            b.header.reward == 50_000_000_000,
            b.header.signature@ == Seq::new(64, |i: int| 0u8),
            b.transactions@.len() == 0,
    {
        let header = BlockHeader {
            height: 0,
            timestamp: 0,
            prev_hash: [0u8; 32],
            state_root: [0u8; 32],
            tx_root: [0u8; 32],
            validator: [0u8; 20],
            validator_pubkey: [0u8; 32],
            base_fee: 1,
            reward: 50 * 1_000_000_000,
            signature: [0u8; 64],
        };
        assert(header.prev_hash@ =~= Seq::new(32, |i: int| 0u8));
        assert(header.validator@ =~= Seq::new(20, |i: int| 0u8));
        assert(header.signature@ =~= Seq::new(64, |i: int| 0u8));
        Self { header, transactions: Vec::new() }
    }

    /// Create a new block on top of the given previous block: one higher,
    /// linked by the previous header's hash, committing to `transactions`.
    /// The signature is zero until the block is signed.
    pub fn new(
        prev_block: &Block,
        transactions: Vec<Transaction>,
        state_root: crate::crypto::Hash,
        validator: Address,
        validator_pubkey: PublicKey,
        timestamp: u64,
        base_fee: u64,
        reward: u64,
    ) -> (b: Self)
        requires
            prev_block.header.height < u64::MAX,
        ensures
            b.header.height == prev_block.header.height + 1,
            b.header.prev_hash@ == header_hash(prev_block.header),
            b.header.timestamp == timestamp,
            b.header.state_root == state_root,
            b.header.validator == validator,
            b.header.validator_pubkey == validator_pubkey,
            b.header.base_fee == base_fee,
            b.header.reward == reward,
            b.header.signature@ == Seq::new(64, |i: int| 0u8),
            b.transactions@ == transactions@,
            tx_root_matches(b),
    {
        let tx_hashes = hash_all(&transactions);
        let tx_root = compute_merkle_root(tx_hashes.as_slice());
        let header = BlockHeader {
            height: prev_block.header.height + 1,
            timestamp,
            prev_hash: prev_block.header.hash(),
            state_root,
            tx_root,
            validator,
            validator_pubkey,
            base_fee,
            reward,
            signature: [0u8; 64],
        };
        assert(header.signature@ =~= Seq::new(64, |i: int| 0u8));
        Self { header, transactions }
    }

    /// Sign this block's header in-place with the validator's key pair. The
    /// signature verifies under the pair's public key.
    pub fn sign(&mut self, key_pair: &KeyPair)
        ensures
            final(self).header.signature@ == spec_sign(key_pair.secret(), header_hash(old(self).header)),
            final(self).header == (BlockHeader { signature: final(self).header.signature, ..old(self).header }),
            header_hash(final(self).header) == header_hash(old(self).header),
            final(self).header.validator_pubkey == old(self).header.validator_pubkey,
            final(self).transactions@ == old(self).transactions@,
            final(self).header.height == old(self).header.height,
            final(self).header.prev_hash == old(self).header.prev_hash,
            final(self).header.tx_root == old(self).header.tx_root,
            old(self).header.validator_pubkey@ == crate::crypto::spec_public_key(key_pair.secret()) ==> block_verifies(*final(self)),
    {
        let hash = self.header.hash();
        self.header.signature = key_pair.sign(&hash);
        assert(header_bytes(self.header) =~= header_bytes(old(self).header));
    }

    /// Verify the block's header signature.
    pub fn verify_signature(&self) -> (ok: bool)
        ensures
            ok == block_verifies(*self),
    {
        let hash = self.header.hash();
        verify_signature(&self.header.validator_pubkey, &hash, &self.header.signature)
    }

    /// The block hash (same as header hash).
    pub fn hash(&self) -> (h: crate::crypto::Hash)
        ensures
            h@ == header_hash(self.header),
    {
        self.header.hash()
    }

    /// Verify internal consistency: tx_root matches the transactions.
    pub fn verify_tx_root(&self) -> (ok: bool)
        ensures
            ok == tx_root_matches(*self),
    {
        let tx_hashes = hash_all(&self.transactions);
        let expected = compute_merkle_root(tx_hashes.as_slice());
        hash_eq(&expected, &self.header.tx_root)
    }
}

} // verus!
