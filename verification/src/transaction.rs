//! Transactions: transfers, contract deployments and calls, and stakes. Every
//! transaction is signed by the sender and carries a nonce against replays.

use vstd::prelude::*;
use vstd::bytes::{spec_u64_from_le_bytes, spec_u64_to_le_bytes, u64_to_le_bytes};
use crate::crypto::{
    address_from_public_key, hash_sha256, spec_address, spec_public_key, spec_sha256, spec_sign, spec_verify, verify_signature,
    Address, KeyPair, PublicKey, Signature,
};
use crate::keymap::bytes_eq;

verus! {

/// The purpose of a transaction.
#[derive(Debug, Clone, Copy, PartialEq, Eq, Structural)]
pub enum TransactionKind {
    /// Plain coin transfer.
    Transfer,
    /// Deploy a new smart contract (data = bytecode).
    ContractDeploy,
    /// Call an existing smart contract function.
    ContractCall,
    /// Stake coins to become a validator.
    Stake,
    /// Unstake coins (withdraw from validator set).
    Unstake,
}

/// The number that stands for a transaction kind in the signed bytes.
pub open spec fn spec_kind_id(kind: TransactionKind) -> u8 {
    match kind {
        TransactionKind::Transfer => 0,
        TransactionKind::ContractDeploy => 1,
        TransactionKind::ContractCall => 2,
        TransactionKind::Stake => 3,
        TransactionKind::Unstake => 4,
    }
}

/// A single transaction on the Thunder Blockchain.
#[derive(Debug, Clone)]
pub struct Transaction {
    /// Chain ID for replay protection (e.g., 1 = Mainnet, 2 = Testnet)
    pub chain_id: u64,
    /// Sender nonce (monotonically increasing per account).
    pub nonce: u64,
    /// Sender address.
    pub from: Address,
    /// Recipient address (zero-address for contract deployment).
    pub to: Address,
    /// Amount of coins to transfer.
    pub value: u64,
    /// Arbitrary payload (bytecode for deploys, call-data for calls).
    pub data: Vec<u8>,
    /// Maximum gas units the sender is willing to pay.
    pub gas_limit: u64,
    /// Price per gas unit (in smallest coin denomination).
    pub gas_price: u64,
    /// Transaction variant.
    pub kind: TransactionKind,
    /// Ed25519 signature over the transaction hash.
    pub signature: Signature,
    /// Sender's public key (needed for signature verification).
    pub public_key: PublicKey,
}

/// The bytes that are signed: every field but the signature, numbers little
/// endian, the sender's public key last.
pub open spec fn tx_signable(t: Transaction) -> Seq<u8> {
    spec_u64_to_le_bytes(t.chain_id) + spec_u64_to_le_bytes(t.nonce) + t.from@ + t.to@ + spec_u64_to_le_bytes(t.value)
        + t.data@ + spec_u64_to_le_bytes(t.gas_limit) + spec_u64_to_le_bytes(t.gas_price) + seq![spec_kind_id(t.kind)]
        + t.public_key@
}

/// The transaction hash: SHA-256 of the signable bytes.
pub open spec fn tx_hash(t: Transaction) -> Seq<u8> {
    spec_sha256(tx_signable(t))
}

/// The sender address belongs to the public key, and the signature over the
/// hash verifies under it.
pub open spec fn tx_verifies(t: Transaction) -> bool {
    t.from@ == spec_address(t.public_key@) && spec_verify(t.public_key@, tx_hash(t), t.signature@)
}

/// Two transactions agree on every field but the signature.
pub open spec fn same_but_signature(a: Transaction, b: Transaction) -> bool {
    &&& a.chain_id == b.chain_id
    &&& a.nonce == b.nonce
    &&& a.from@ == b.from@
    &&& a.to@ == b.to@
    &&& a.value == b.value
    &&& a.data@ == b.data@
    &&& a.gas_limit == b.gas_limit
    &&& a.gas_price == b.gas_price
    &&& a.kind == b.kind
    &&& a.public_key@ == b.public_key@
}

/// Law: the signed bytes are 113 bytes plus the data, and two transactions
/// have the same signed bytes exactly when they agree on every field but
/// the signature; the signature never affects them.
pub proof fn lemma_tx_signable(a: Transaction, b: Transaction)
    ensures
        tx_signable(a).len() == 113 + a.data@.len(),
        tx_signable(a) == tx_signable(b) <==> same_but_signature(a, b),
{
    vstd::bytes::lemma_auto_spec_u64_to_from_le_bytes();
    let sa = tx_signable(a);
    let sb = tx_signable(b);
    let d = a.data@.len() as int;
    assert(sa.len() == 113 + d);
    if sa == sb {
        assert(sb.len() == 113 + b.data@.len());
        assert(spec_u64_to_le_bytes(a.chain_id) =~= sa.subrange(0, 8));
        assert(spec_u64_to_le_bytes(b.chain_id) =~= sb.subrange(0, 8));
        assert(spec_u64_to_le_bytes(a.nonce) =~= sa.subrange(8, 16));
        assert(spec_u64_to_le_bytes(b.nonce) =~= sb.subrange(8, 16));
        assert(a.from@ =~= sa.subrange(16, 36));
        assert(b.from@ =~= sb.subrange(16, 36));
        assert(a.to@ =~= sa.subrange(36, 56));
        assert(b.to@ =~= sb.subrange(36, 56));
        assert(spec_u64_to_le_bytes(a.value) =~= sa.subrange(56, 64));
        assert(spec_u64_to_le_bytes(b.value) =~= sb.subrange(56, 64));
        assert(a.data@ =~= sa.subrange(64, 64 + d));
        assert(b.data@ =~= sb.subrange(64, 64 + d));
        assert(spec_u64_to_le_bytes(a.gas_limit) =~= sa.subrange(64 + d, 72 + d));
        assert(spec_u64_to_le_bytes(b.gas_limit) =~= sb.subrange(64 + d, 72 + d));
        assert(spec_u64_to_le_bytes(a.gas_price) =~= sa.subrange(72 + d, 80 + d));
        assert(spec_u64_to_le_bytes(b.gas_price) =~= sb.subrange(72 + d, 80 + d));
        assert(sa[80 + d] == spec_kind_id(a.kind));
        assert(sb[80 + d] == spec_kind_id(b.kind));
        assert(a.public_key@ =~= sa.subrange(81 + d, 113 + d));
        assert(b.public_key@ =~= sb.subrange(81 + d, 113 + d));
        assert(spec_u64_from_le_bytes(spec_u64_to_le_bytes(a.chain_id)) == a.chain_id);
        assert(spec_u64_from_le_bytes(spec_u64_to_le_bytes(a.nonce)) == a.nonce);
        assert(spec_u64_from_le_bytes(spec_u64_to_le_bytes(a.value)) == a.value);
        assert(spec_u64_from_le_bytes(spec_u64_to_le_bytes(a.gas_limit)) == a.gas_limit);
        assert(spec_u64_from_le_bytes(spec_u64_to_le_bytes(a.gas_price)) == a.gas_price);
        assert(spec_u64_from_le_bytes(spec_u64_to_le_bytes(b.chain_id)) == b.chain_id);
        assert(spec_u64_from_le_bytes(spec_u64_to_le_bytes(b.nonce)) == b.nonce);
        assert(spec_u64_from_le_bytes(spec_u64_to_le_bytes(b.value)) == b.value);
        assert(spec_u64_from_le_bytes(spec_u64_to_le_bytes(b.gas_limit)) == b.gas_limit);
        assert(spec_u64_from_le_bytes(spec_u64_to_le_bytes(b.gas_price)) == b.gas_price);
    }
    if same_but_signature(a, b) {
        assert(sa =~= sb);
    }
}

/// The same transaction, field by field.
pub open spec fn same_tx(a: Transaction, b: Transaction) -> bool {
    &&& a.chain_id == b.chain_id
    &&& a.nonce == b.nonce
    &&& a.from == b.from
    &&& a.to == b.to
    &&& a.value == b.value
    &&& a.data@ == b.data@
    &&& a.gas_limit == b.gas_limit
    &&& a.gas_price == b.gas_price
    &&& a.kind == b.kind
    &&& a.signature == b.signature
    &&& a.public_key == b.public_key
}

/// An unsigned transaction: zero signature and public key.
pub open spec fn unsigned(t: Transaction) -> bool {
    t.signature@ == Seq::new(64, |i: int| 0u8) && t.public_key@ == Seq::new(32, |i: int| 0u8)
}

/// The transaction signed with `secret`: public key, sender address and
/// signature replaced, everything else kept.
pub open spec fn signed_with(t: Transaction, secret: Seq<u8>, s: Transaction) -> bool {
    &&& s.public_key@ == spec_public_key(secret)
    &&& s.from@ == spec_address(spec_public_key(secret))
    &&& s.chain_id == t.chain_id
    &&& s.nonce == t.nonce
    &&& s.to == t.to
    &&& s.value == t.value
    &&& s.data@ == t.data@
    &&& s.gas_limit == t.gas_limit
    &&& s.gas_price == t.gas_price
    &&& s.kind == t.kind
    &&& s.signature@ == spec_sign(secret, tx_hash(s))
}

impl Transaction {
    /// Create a new **unsigned** transfer transaction.
    pub fn new_transfer(
        chain_id: u64,
        nonce: u64,
        from: Address,
        to: Address,
        value: u64,
        gas_limit: u64,
        gas_price: u64,
    ) -> (t: Self)
        ensures
            t.chain_id == chain_id && t.nonce == nonce && t.from == from && t.to == to && t.value == value,
            t.data@ == Seq::<u8>::empty(),
            t.gas_limit == gas_limit && t.gas_price == gas_price,
            t.kind == TransactionKind::Transfer,
            unsigned(t),
    {
        let t = Self {
            chain_id,
            nonce,
            from,
            to,
            value,
            data: Vec::new(),
            gas_limit,
            gas_price,
            kind: TransactionKind::Transfer,
            signature: [0u8; 64],
            public_key: [0u8; 32],
        };
        assert(t.signature@ =~= Seq::new(64, |i: int| 0u8));
        assert(t.public_key@ =~= Seq::new(32, |i: int| 0u8));
        t
    }

    /// Create a new **unsigned** contract-deploy transaction (to the zero
    /// address, with no value).
    pub fn new_deploy(chain_id: u64, nonce: u64, from: Address, bytecode: Vec<u8>, gas_limit: u64, gas_price: u64) -> (t: Self)
        ensures
            t.chain_id == chain_id && t.nonce == nonce && t.from == from,
            t.to@ == Seq::new(20, |i: int| 0u8),
            t.value == 0,
            t.data@ == bytecode@,
            t.gas_limit == gas_limit && t.gas_price == gas_price,
            t.kind == TransactionKind::ContractDeploy,
            unsigned(t),
    {
        let t = Self {
            chain_id,
            nonce,
            from,
            to: [0u8; 20],
            value: 0,
            data: bytecode,
            gas_limit,
            gas_price,
            kind: TransactionKind::ContractDeploy,
            signature: [0u8; 64],
            public_key: [0u8; 32],
        };
        assert(t.to@ =~= Seq::new(20, |i: int| 0u8));
        assert(t.signature@ =~= Seq::new(64, |i: int| 0u8));
        assert(t.public_key@ =~= Seq::new(32, |i: int| 0u8));
        t
    }

    /// Create a new **unsigned** contract-call transaction.
    pub fn new_call(
        chain_id: u64,
        nonce: u64,
        from: Address,
        to: Address,
        value: u64,
        call_data: Vec<u8>,
        gas_limit: u64,
        gas_price: u64,
    ) -> (t: Self)
        ensures
            t.chain_id == chain_id && t.nonce == nonce && t.from == from && t.to == to && t.value == value,
            t.data@ == call_data@,
            t.gas_limit == gas_limit && t.gas_price == gas_price,
            t.kind == TransactionKind::ContractCall,
            unsigned(t),
    {
        let t = Self {
            chain_id,
            nonce,
            from,
            to,
            value,
            data: call_data,
            gas_limit,
            gas_price,
            kind: TransactionKind::ContractCall,
            signature: [0u8; 64],
            public_key: [0u8; 32],
        };
        assert(t.signature@ =~= Seq::new(64, |i: int| 0u8));
        assert(t.public_key@ =~= Seq::new(32, |i: int| 0u8));
        t
    }

    /// Create a new **unsigned** stake transaction (to the zero address).
    pub fn new_stake(chain_id: u64, nonce: u64, from: Address, amount: u64, gas_limit: u64, gas_price: u64) -> (t: Self)
        ensures
            t.chain_id == chain_id && t.nonce == nonce && t.from == from,
            t.to@ == Seq::new(20, |i: int| 0u8),
            t.value == amount,
            t.data@ == Seq::<u8>::empty(),
            t.gas_limit == gas_limit && t.gas_price == gas_price,
            t.kind == TransactionKind::Stake,
            unsigned(t),
    {
        let t = Self {
            chain_id,
            nonce,
            from,
            to: [0u8; 20],
            value: amount,
            data: Vec::new(),
            gas_limit,
            gas_price,
            kind: TransactionKind::Stake,
            signature: [0u8; 64],
            public_key: [0u8; 32],
        };
        assert(t.to@ =~= Seq::new(20, |i: int| 0u8));
        assert(t.signature@ =~= Seq::new(64, |i: int| 0u8));
        assert(t.public_key@ =~= Seq::new(32, |i: int| 0u8));
        t
    }

    /// Numeric id for the transaction kind (used in the signed bytes).
    fn kind_id(&self) -> (id: u8)
        ensures
            id == spec_kind_id(self.kind),
    {
        match self.kind {
            TransactionKind::Transfer => 0,
            TransactionKind::ContractDeploy => 1,
            TransactionKind::ContractCall => 2,
            TransactionKind::Stake => 3,
            TransactionKind::Unstake => 4,
        }
    }

    /// Compute the bytes that are signed (everything except signature).
    pub fn signable_bytes(&self) -> (b: Vec<u8>)
        ensures
            b@ == tx_signable(*self),
    {
        let mut buf: Vec<u8> = Vec::new();
        buf.append(&mut u64_to_le_bytes(self.chain_id));
        buf.append(&mut u64_to_le_bytes(self.nonce));
        buf.extend_from_slice(&self.from);
        buf.extend_from_slice(&self.to);
        buf.append(&mut u64_to_le_bytes(self.value));
        buf.extend_from_slice(self.data.as_slice());
        buf.append(&mut u64_to_le_bytes(self.gas_limit));
        buf.append(&mut u64_to_le_bytes(self.gas_price));
        buf.push(self.kind_id());
        buf.extend_from_slice(&self.public_key);
        assert(buf@ =~= tx_signable(*self));
        buf
    }

    /// Compute the transaction hash (SHA-256 of the signable bytes).
    pub fn hash(&self) -> (h: crate::crypto::Hash)
        ensures
            h@ == tx_hash(*self),
    {
        let bytes = self.signable_bytes();
        hash_sha256(bytes.as_slice())
    }

    /// Sign the transaction in-place with the given key pair: the public key
    /// and sender address become the pair's, and the signature is over the
    /// resulting hash. A signed transaction verifies.
    pub fn sign(&mut self, key_pair: &KeyPair)
        ensures
            signed_with(*old(self), key_pair.secret(), *final(self)),
            tx_verifies(*final(self)),
    {
        self.public_key = key_pair.public_key();
        self.from = key_pair.address();
        let hash = self.hash();
        self.signature = key_pair.sign(&hash);
    }

    /// Verify the attached signature: the sender address must belong to the
    /// public key, and the signature over the hash must verify under it.
    pub fn verify_signature(&self) -> (ok: bool)
        ensures
            ok == tx_verifies(*self),
    {
        let expected = address_from_public_key(&self.public_key);
        if !bytes_eq(&self.from, &expected) {
            return false;
        }
        let hash = self.hash();
        verify_signature(&self.public_key, &hash, &self.signature)
    }

    /// A copy of this transaction.
    pub fn duplicate(&self) -> (t: Self)
        ensures
            same_tx(*self, t),
    {
        Transaction {
            chain_id: self.chain_id,
            nonce: self.nonce,
            from: self.from,
            to: self.to,
            value: self.value,
            data: vstd::slice::slice_to_vec(self.data.as_slice()),
            gas_limit: self.gas_limit,
            gas_price: self.gas_price,
            kind: self.kind,
            signature: self.signature,
            public_key: self.public_key,
        }
    }

    /// Total fee the sender is willing to pay = gas_limit × gas_price,
    /// saturating at `u64::MAX`.
    pub fn max_fee(&self) -> (fee: u64)
        ensures
            fee == (if self.gas_limit * self.gas_price > u64::MAX { u64::MAX } else { (self.gas_limit * self.gas_price) as u64 }),
    {
        match self.gas_limit.checked_mul(self.gas_price) {
            Some(f) => f,
            None => u64::MAX,
        }
    }
}

} // verus!
