//! The world state: every account's balance, nonce, contract code and
//! contract storage, with the state transition of a signed transaction.
//! Modified accounts sit in a cache until `commit` moves them to the
//! committed accounts.

use vstd::prelude::*;
use vstd::bytes::{spec_u64_to_le_bytes, u64_to_le_bytes};
use crate::crypto::{hash_sha256, spec_sha256, Address};
use crate::abft::{lemma_lex_skip, lemma_lex_total, lemma_lex_trans, lex_le};
use crate::keymap::{entries_map, ByteStore, KeyedMap};
use crate::text::{decimal, decimal_text_u64};
use crate::transaction::{tx_verifies, Transaction, TransactionKind};

verus! {

/// The on-chain state of a single account.
#[derive(Debug)]
pub struct Account {
    /// Coin balance.
    pub balance: u64,
    /// Next expected nonce (anti-replay).
    pub nonce: u64,
    /// Hash of the contract bytecode (zero for plain accounts).
    pub code_hash: crate::crypto::Hash,
    /// Contract bytecode (empty for plain accounts).
    pub code: Vec<u8>,
    /// Contract key-value storage.
    pub storage: ByteStore,
}

/// An account as plain values.
pub struct AccountView {
    pub balance: u64,
    pub nonce: u64,
    pub code_hash: Seq<u8>,
    pub code: Seq<u8>,
    pub storage: Map<Seq<u8>, Seq<u8>>,
}

impl View for Account {
    type V = AccountView;

    open spec fn view(&self) -> AccountView {
        AccountView {
            balance: self.balance,
            nonce: self.nonce,
            code_hash: self.code_hash@,
            code: self.code@,
            storage: self.storage@,
        }
    }
}

/// A fresh account: no coins, nonce 0, no code, empty storage.
pub open spec fn empty_account() -> AccountView {
    AccountView {
        balance: 0,
        nonce: 0,
        code_hash: Seq::new(32, |i: int| 0u8),
        code: Seq::empty(),
        storage: Map::empty(),
    }
}

impl Account {
    /// New empty externally-owned account (no code).
    pub fn new() -> (a: Self)
        ensures
            a@ == empty_account(),
    {
        let a = Self { balance: 0, nonce: 0, code_hash: [0u8; 32], code: Vec::new(), storage: KeyedMap::new() };
        assert(a.code_hash@ =~= Seq::new(32, |i: int| 0u8));
        assert(a.code@ =~= Seq::<u8>::empty());
        a
    }

    /// New account with an initial balance (used in genesis).
    pub fn with_balance(balance: u64) -> (a: Self)
        ensures
            a@ == (AccountView { balance, ..empty_account() }),
    {
        let mut a = Self::new();
        a.balance = balance;
        a
    }

    /// Whether this account holds contract code.
    pub fn is_contract(&self) -> (b: bool)
        ensures
            b == (self.code@.len() > 0),
    {
        self.code.len() > 0
    }

    /// A copy of this account.
    pub fn duplicate(&self) -> (a: Self)
        ensures
            a@ == self@,
    {
        Self {
            balance: self.balance,
            nonce: self.nonce,
            code_hash: self.code_hash,
            code: vstd::slice::slice_to_vec(self.code.as_slice()),
            storage: self.storage.duplicate(),
        }
    }
}

impl Default for Account {
    fn default() -> (a: Self)
        ensures
            a@ == empty_account(),
    {
        Self::new()
    }
}

/// Errors that can occur during state transitions.
#[derive(Debug, Clone, PartialEq, Eq)]
pub enum StateError {
    InvalidSignature,
    InvalidNonce { expected: u64, got: u64 },
    InsufficientBalance { required: u64, available: u64 },
    ExecutionError(String),
}

/// The message of a state error.
pub open spec fn state_error_text(e: StateError) -> Seq<char> {
    match e {
        StateError::InvalidSignature => "invalid transaction signature"@,
        StateError::InvalidNonce { expected, got } => "invalid nonce: expected "@ + decimal(expected as nat) + ", got "@
            + decimal(got as nat),
        StateError::InsufficientBalance { required, available } => "insufficient balance: required "@
            + decimal(required as nat) + ", available "@ + decimal(available as nat),
        StateError::ExecutionError(m) => "contract execution error: "@ + m@,
    }
}

impl StateError {
    /// The error as text.
    pub fn to_string(&self) -> (s: String)
        ensures
            s@ == state_error_text(*self),
    {
        match self {
            StateError::InvalidSignature => String::from_str("invalid transaction signature"),
            StateError::InvalidNonce { expected, got } => {
                let mut s = String::from_str("invalid nonce: expected ");
                s.append(decimal_text_u64(*expected).as_str());
                s.append(", got ");
                s.append(decimal_text_u64(*got).as_str());
                s
            },
            StateError::InsufficientBalance { required, available } => {
                let mut s = String::from_str("insufficient balance: required ");
                s.append(decimal_text_u64(*required).as_str());
                s.append(", available ");
                s.append(decimal_text_u64(*available).as_str());
                s
            },
            StateError::ExecutionError(m) => {
                let mut s = String::from_str("contract execution error: ");
                s.append(m.as_str());
                s
            },
        }
    }
}

/// The account at `a`, or a fresh one.
pub open spec fn account_of(m: Map<Seq<u8>, AccountView>, a: Seq<u8>) -> AccountView {
    if m.contains_key(a) {
        m[a]
    } else {
        empty_account()
    }
}

/// Gas charged for a transaction: 21 000, and for a deployment 53 000 plus
/// 200 per byte of code.
pub open spec fn base_gas(tx: Transaction) -> int {
    match tx.kind {
        TransactionKind::ContractDeploy => (53_000 + tx.data@.len() * 200) as int,
        _ => 21_000,
    }
}

/// `a + b`, saturating at `u64::MAX`.
pub open spec fn sat_add(a: u64, b: u64) -> u64 {
    if a + b > u64::MAX { u64::MAX } else { (a + b) as u64 }
}

/// `a * b`, saturating at `u64::MAX`.
pub open spec fn sat_mul(a: u64, b: u64) -> u64 {
    if a * b > u64::MAX { u64::MAX } else { (a * b) as u64 }
}

/// `a - b`, saturating at 0.
pub open spec fn sat_sub(a: u64, b: u64) -> u64 {
    if a < b { 0 } else { (a - b) as u64 }
}

/// The most a transaction can cost: its value plus its maximum fee.
pub open spec fn total_cost(tx: Transaction) -> u64 {
    sat_add(tx.value, sat_mul(tx.gas_limit, tx.gas_price))
}

/// The fee charged: base gas times the gas price, saturating.
pub open spec fn fee_of(tx: Transaction) -> u64 {
    sat_mul(base_gas(tx) as u64, tx.gas_price)
}

/// The address of a contract deployed by `creator` with `nonce`: the first
/// 20 bytes of SHA-256 of the creator's address and the nonce (little endian).
pub open spec fn contract_address(creator: Seq<u8>, nonce: u64) -> Seq<u8> {
    spec_sha256(creator + spec_u64_to_le_bytes(nonce)).subrange(0, 20)
}

/// The outcome of a transaction on the accounts `m`: an error, or the gas
/// used and the new accounts.
pub open spec fn transition(m: Map<Seq<u8>, AccountView>, tx: Transaction) -> Result<(u64, Map<Seq<u8>, AccountView>), StateError> {
    let sender = account_of(m, tx.from@);
    if !tx_verifies(tx) {
        Err(StateError::InvalidSignature)
    } else if tx.nonce != sender.nonce {
        Err(StateError::InvalidNonce { expected: sender.nonce, got: tx.nonce })
    } else if sender.balance < total_cost(tx) {
        Err(StateError::InsufficientBalance { required: total_cost(tx), available: sender.balance })
    } else {
        let gas = base_gas(tx) as u64;
        let charged = AccountView {
            balance: sat_sub(sender.balance, (tx.value + fee_of(tx)) as u64),
            nonce: (sender.nonce + 1) as u64,
            ..sender
        };
        let m1 = m.insert(tx.from@, charged);
        let m2 = match tx.kind {
            TransactionKind::Transfer => {
                let r = account_of(m1, tx.to@);
                m1.insert(tx.to@, AccountView { balance: sat_add(r.balance, tx.value), ..r })
            },
            TransactionKind::ContractDeploy => m1.insert(
                contract_address(tx.from@, (tx.nonce - 1) as u64),
                AccountView { code: tx.data@, code_hash: spec_sha256(tx.data@), ..empty_account() },
            ),
            _ => m1,
        };
        Ok((gas, m2))
    }
}

/// The accounts after applying `tx`, or unchanged if it is rejected.
pub open spec fn apply_or_keep(m: Map<Seq<u8>, AccountView>, tx: Transaction) -> Map<Seq<u8>, AccountView> {
    match transition(m, tx) {
        Ok(p) => p.1,
        Err(_) => m,
    }
}

/// The checks of a transaction pass on the accounts `m`.
pub open spec fn accepted(m: Map<Seq<u8>, AccountView>, tx: Transaction) -> bool {
    let sender = account_of(m, tx.from@);
    tx_verifies(tx) && tx.nonce == sender.nonce && sender.balance >= total_cost(tx)
}

/// The entire world state: the committed accounts and the accounts modified
/// since the last commit.
pub struct WorldState {
    committed: KeyedMap<Account>,
    cache: KeyedMap<Account>,
}

impl WorldState {
    /// Every account, the modified ones over the committed ones.
    pub closed spec fn accounts(&self) -> Map<Seq<u8>, AccountView> {
        self.committed@.union_prefer_right(self.cache@)
    }

    /// The accounts modified since the last commit.
    pub closed spec fn modified(&self) -> Map<Seq<u8>, AccountView> {
        self.cache@
    }

    /// An empty world state.
    pub fn new() -> (w: Self)
        ensures
            w.accounts() == Map::<Seq<u8>, AccountView>::empty(),
            w.modified() == Map::<Seq<u8>, AccountView>::empty(),
    {
        let w = WorldState { committed: KeyedMap::new(), cache: KeyedMap::new() };
        assert(w.accounts() =~= Map::<Seq<u8>, AccountView>::empty());
        w
    }

    /// The account at `address`; a fresh account if there is none.
    pub fn get_account(&self, address: &Address) -> (a: Account)
        ensures
            a@ == account_of(self.accounts(), address@),
    {
        match self.cache.get(address.as_slice()) {
            Some(a) => a.duplicate(),
            None => match self.committed.get(address.as_slice()) {
                Some(a) => a.duplicate(),
                None => Account::new(),
            },
        }
    }

    /// Store an account (modified until the next commit).
    pub fn set_account(&mut self, address: &Address, account: Account)
        ensures
            final(self).accounts() == old(self).accounts().insert(address@, account@),
            final(self).modified() == old(self).modified().insert(address@, account@),
    {
        let key = vstd::slice::slice_to_vec(address.as_slice());
        let ghost v = account@;
        self.cache.insert(key, account);
        assert(self.accounts() =~= old(self).accounts().insert(address@, v));
    }

    /// The balance of an account (0 for a fresh one).
    pub fn get_balance(&self, address: &Address) -> (b: u64)
        ensures
            b == account_of(self.accounts(), address@).balance,
    {
        self.get_account(address).balance
    }

    /// Apply a signed transaction: check the signature, the nonce and that
    /// the sender can pay the value and the maximum fee; then charge the
    /// value and the fee for the base gas, bump the nonce, and credit the
    /// recipient of a transfer or create the deployed contract. Returns the
    /// gas used. On error nothing changes.
    pub fn apply_transaction(&mut self, tx: &Transaction) -> (r: Result<u64, StateError>)
        requires
            accepted(old(self).accounts(), *tx) ==> {
                &&& account_of(old(self).accounts(), tx.from@).nonce < u64::MAX
                &&& base_gas(*tx) <= u64::MAX
                &&& tx.value + fee_of(*tx) <= u64::MAX
                &&& tx.kind == TransactionKind::ContractDeploy ==> tx.nonce > 0
            },
        ensures
            match transition(old(self).accounts(), *tx) {
                Err(e) => r == Err::<u64, StateError>(e) && final(self).accounts() == old(self).accounts(),
                Ok((gas, m)) => r == Ok::<u64, StateError>(gas) && final(self).accounts() == m,
            },
    {
        if !tx.verify_signature() {
            return Err(StateError::InvalidSignature);
        }
        let mut sender = self.get_account(&tx.from);
        if tx.nonce != sender.nonce {
            return Err(StateError::InvalidNonce { expected: sender.nonce, got: tx.nonce });
        }
        let max_fee = tx.max_fee();
        let total_cost = match tx.value.checked_add(max_fee) {
            Some(c) => c,
            None => u64::MAX,
        };
        if sender.balance < total_cost {
            return Err(StateError::InsufficientBalance { required: total_cost, available: sender.balance });
        }
        let gas_used = Self::base_gas_cost(tx);
        let fee = match gas_used.checked_mul(tx.gas_price) {
            Some(f) => f,
            None => u64::MAX,
        };
        let charge = tx.value + fee;
        sender.balance = if sender.balance < charge { 0 } else { sender.balance - charge };
        sender.nonce = sender.nonce + 1;
        self.set_account(&tx.from, sender);
        match tx.kind {
            TransactionKind::Transfer => {
                let mut recipient = self.get_account(&tx.to);
                recipient.balance = match recipient.balance.checked_add(tx.value) {
                    Some(b) => b,
                    None => u64::MAX,
                };
                self.set_account(&tx.to, recipient);
            },
            TransactionKind::ContractDeploy => {
                let contract_addr = Self::derive_contract_address(&tx.from, tx.nonce - 1);
                let mut contract = Account::new();
                contract.code = vstd::slice::slice_to_vec(tx.data.as_slice());
                contract.code_hash = hash_sha256(tx.data.as_slice());
                self.set_account(&contract_addr, contract);
            },
            _ => {},
        }
        Ok(gas_used)
    }

    /// Apply a transaction, keeping the state as it was when it is rejected.
    pub fn apply_or_skip(&mut self, tx: &Transaction)
        requires
            accepted(old(self).accounts(), *tx) ==> {
                &&& account_of(old(self).accounts(), tx.from@).nonce < u64::MAX
                &&& base_gas(*tx) <= u64::MAX
                &&& tx.value + fee_of(*tx) <= u64::MAX
                &&& tx.kind == TransactionKind::ContractDeploy ==> tx.nonce > 0
            },
        ensures
            final(self).accounts() == apply_or_keep(old(self).accounts(), *tx),
    {
        let _ = self.apply_transaction(tx);
    }

    /// Move the modified accounts to the committed ones. No account changes.
    pub fn commit(&mut self)
        ensures
            final(self).accounts() == old(self).accounts(),
            final(self).modified() == Map::<Seq<u8>, AccountView>::empty(),
    {
        let mut cache = KeyedMap::new();
        std::mem::swap(&mut cache, &mut self.cache);
        let ghost c = cache@;
        let ghost base = self.committed@;
        let entries = cache.into_entries();
        let mut i: usize = 0;
        while i < entries.len()
            invariant
                i <= entries@.len(),
                entries_map(entries@) == c,
                self.cache@ == Map::<Seq<u8>, AccountView>::empty(),
                self.committed@ == base.union_prefer_right(entries_map(entries@.subrange(0, i as int))),
            decreases entries@.len() - i,
        {
            let ghost before = self.committed@;
            let key = vstd::slice::slice_to_vec(entries[i].0.as_slice());
            let acct = entries[i].1.duplicate();
            self.committed.insert(key, acct);
            proof {
                let sub = entries@.subrange(0, i + 1);
                assert(sub.drop_last() =~= entries@.subrange(0, i as int));
                assert(self.committed@ =~= base.union_prefer_right(entries_map(sub)));
            }
            i += 1;
        }
        proof {
            assert(entries@.subrange(0, i as int) =~= entries@);
            assert(self.accounts() =~= old(self).accounts());
        }
    }

    /// The address of a contract deployed by `creator` with `nonce`.
    pub(crate) fn derive_contract_address(creator: &Address, nonce: u64) -> (a: Address)
        ensures
            a@ == contract_address(creator@, nonce),
    {
        let mut data: Vec<u8> = Vec::new();
        data.extend_from_slice(creator);
        data.append(&mut u64_to_le_bytes(nonce));
        let hash = hash_sha256(data.as_slice());
        let mut addr = [0u8; 20];
        let mut i: usize = 0;
        while i < 20
            invariant
                i <= 20,
                hash@.len() == 32,
                addr@.len() == 20,
                forall|k: int| 0 <= k < i ==> addr@[k] == hash@[k],
            decreases 20 - i,
        {
            addr[i] = hash[i];
            i += 1;
        }
        assert(data@ =~= creator@ + spec_u64_to_le_bytes(nonce));
        assert(addr@ =~= hash@.subrange(0, 20));
        addr
    }

    /// Gas charged for a transaction (see `base_gas`).
    fn base_gas_cost(tx: &Transaction) -> (g: u64)
        requires
            base_gas(*tx) <= u64::MAX,
        ensures
            g == base_gas(*tx),
    {
        match tx.kind {
            TransactionKind::ContractDeploy => 53_000 + (tx.data.len() as u64) * 200,
            _ => 21_000,
        }
    }
}

/// Whether `a` comes no later than `b` in byte order.
pub fn bytes_le(a: &[u8], b: &[u8]) -> (r: bool)
    ensures
        r == lex_le(a@, b@),
{
    let n = if a.len() < b.len() { a.len() } else { b.len() };
    let mut i: usize = 0;
    while i < n
        invariant
            i <= n,
            n <= a@.len(),
            n <= b@.len(),
            n == a@.len() || n == b@.len(),
            forall|k: int| 0 <= k < i ==> a@[k] == b@[k],
        decreases n - i,
    {
        if a[i] != b[i] {
            proof {
                lemma_lex_skip(a@, b@, i as int);
                let sa = a@.subrange(i as int, a@.len() as int);
                let sb = b@.subrange(i as int, b@.len() as int);
                assert(sa[0] == a@[i as int] && sb[0] == b@[i as int]);
            }
            return a[i] < b[i];
        }
        i += 1;
    }
    proof {
        lemma_lex_skip(a@, b@, n as int);
        let sa = a@.subrange(n as int, a@.len() as int);
        let sb = b@.subrange(n as int, b@.len() as int);
        assert(sa.len() == 0 || sb.len() == 0);
    }
    a.len() <= b.len()
}

/// The parts of the state root: each key followed by its bytes.
pub open spec fn root_data(parts: Seq<(Vec<u8>, Vec<u8>)>) -> Seq<u8>
    decreases parts.len(),
{
    if parts.len() == 0 {
        Seq::empty()
    } else {
        root_data(parts.drop_last()) + parts.last().0@ + parts.last().1@
    }
}

/// The state root of serialised accounts (each address followed by its
/// account's bytes, in address order): zero when there is nothing, else the
/// SHA-256 of the concatenation.
pub fn state_root(parts: &Vec<(Vec<u8>, Vec<u8>)>) -> (h: crate::crypto::Hash)
    ensures
        root_data(parts@).len() == 0 ==> h@ == Seq::new(32, |i: int| 0u8),
        root_data(parts@).len() > 0 ==> h@ == spec_sha256(root_data(parts@)),
{
    let mut data: Vec<u8> = Vec::new();
    let mut i: usize = 0;
    while i < parts.len()
        invariant
            i <= parts@.len(),
            data@ == root_data(parts@.subrange(0, i as int)),
        decreases parts@.len() - i,
    {
        data.extend_from_slice(parts[i].0.as_slice());
        data.extend_from_slice(parts[i].1.as_slice());
        proof {
            assert(parts@.subrange(0, i + 1).drop_last() =~= parts@.subrange(0, i as int));
        }
        i += 1;
    }
    proof {
        assert(parts@.subrange(0, i as int) =~= parts@);
    }
    if data.len() == 0 {
        let z = [0u8; 32];
        assert(z@ =~= Seq::new(32, |i: int| 0u8));
        return z;
    }
    hash_sha256(data.as_slice())
}

/// Law: reading an account gives back what was last stored there.
pub proof fn lemma_get_after_set(m: Map<Seq<u8>, AccountView>, address: Seq<u8>, account: AccountView)
    ensures
        account_of(m.insert(address, account), address) == account,
{
}

/// Law: storing an account leaves every other account as it was.
pub proof fn lemma_set_keeps_others(m: Map<Seq<u8>, AccountView>, address: Seq<u8>, account: AccountView, other: Seq<u8>)
    requires
        other != address,
    ensures
        account_of(m.insert(address, account), other) == account_of(m, other),
{
}

/// Law: a transaction that is applied, whatever its kind (transfer,
/// deployment, call, stake or unstake), takes from its sender exactly its
/// value plus its base gas times its gas price (leaving 0 where the
/// balance is smaller) and bumps the sender's nonce by one; it reports its
/// base gas as used; a transfer credits the recipient with the value
/// (capped at the largest balance), a deployment creates an empty account
/// holding the code at the contract's address, and no other account
/// changes.
pub proof fn lemma_transaction_charges(m: Map<Seq<u8>, AccountView>, tx: Transaction)
    requires
        transition(m, tx) is Ok,
        account_of(m, tx.from@).nonce < u64::MAX,
        base_gas(tx) <= u64::MAX,
        tx.value + base_gas(tx) * tx.gas_price <= u64::MAX,
        tx.kind == TransactionKind::Transfer ==> tx.to@ != tx.from@,
        tx.kind == TransactionKind::ContractDeploy ==> contract_address(tx.from@, (tx.nonce - 1) as u64) != tx.from@,
    ensures
        ({
            let before = account_of(m, tx.from@);
            let out = transition(m, tx)->Ok_0;
            let after = account_of(out.1, tx.from@);
            let charge = tx.value + base_gas(tx) * tx.gas_price;
            &&& after.balance == (if before.balance >= charge { before.balance - charge } else { 0 })
            &&& after.nonce == before.nonce + 1
            &&& out.0 == base_gas(tx)
            &&& tx.kind != TransactionKind::ContractDeploy ==> out.0 == 21_000
            &&& tx.kind == TransactionKind::Transfer ==> account_of(out.1, tx.to@).balance == (if account_of(m, tx.to@).balance
                + tx.value > u64::MAX { u64::MAX as int } else { account_of(m, tx.to@).balance + tx.value })
            &&& tx.kind == TransactionKind::ContractDeploy ==> {
                let created = account_of(out.1, contract_address(tx.from@, (tx.nonce - 1) as u64));
                created.code == tx.data@ && created.balance == 0 && created.nonce == 0
            }
            &&& forall|a: Seq<u8>|
                a != tx.from@ && !(tx.kind == TransactionKind::Transfer && a == tx.to@)
                    && !(tx.kind == TransactionKind::ContractDeploy && a == contract_address(tx.from@, (tx.nonce - 1) as u64))
                    ==> #[trigger] account_of(out.1, a) == account_of(m, a)
        }),
{
    let sender = account_of(m, tx.from@);
    assert(base_gas(tx) >= 0) by {
        if tx.gas_price > 0 {
            assert(base_gas(tx) * tx.gas_price >= base_gas(tx)) by (nonlinear_arith)
                requires tx.gas_price > 0, base_gas(tx) >= 0;
        }
    }
    assert(fee_of(tx) == base_gas(tx) * tx.gas_price);
}

/// Some entry of the list is `y`.
pub open spec fn has_key(s: Seq<Vec<u8>>, y: Seq<u8>) -> bool {
    exists|m: int| 0 <= m < s.len() && s[m]@ == y
}

/// Insert `x` into a strictly ascending list of byte strings that lacks it.
fn insert_sorted(sorted: &mut Vec<Vec<u8>>, x: Vec<u8>)
    requires
        forall|a: int, b: int| 0 <= a < b < old(sorted)@.len() ==> lex_le(old(sorted)@[a]@, old(sorted)@[b]@)
            && old(sorted)@[a]@ != old(sorted)@[b]@,
        forall|m: int| 0 <= m < old(sorted)@.len() ==> old(sorted)@[m]@ != x@,
    ensures
        final(sorted)@.len() == old(sorted)@.len() + 1,
        forall|a: int, b: int| 0 <= a < b < final(sorted)@.len() ==> lex_le(final(sorted)@[a]@, final(sorted)@[b]@)
            && final(sorted)@[a]@ != final(sorted)@[b]@,
        forall|y: Seq<u8>| #[trigger] has_key(final(sorted)@, y) <==> (y == x@ || has_key(old(sorted)@, y)),
{
    let mut j: usize = sorted.len();
    while j > 0
        invariant
            j <= sorted@.len(),
            sorted@ == old(sorted)@,
            forall|m: int| j <= m < sorted@.len() ==> !lex_le(#[trigger] sorted@[m]@, x@),
        ensures
            j <= sorted@.len(),
            sorted@ == old(sorted)@,
            forall|m: int| j <= m < sorted@.len() ==> !lex_le(#[trigger] sorted@[m]@, x@),
            j > 0 ==> lex_le(sorted@[j - 1]@, x@),
        decreases j,
    {
        if bytes_le(sorted[j - 1].as_slice(), x.as_slice()) {
            break;
        }
        j -= 1;
    }
    let ghost before = sorted@;
    let ghost xv = x@;
    sorted.insert(j, x);
    proof {
        assert(sorted@ == before.insert(j as int, sorted@[j as int]));
        assert(before == old(sorted)@);
        assert forall|a: int, b: int| 0 <= a < b < sorted@.len() implies lex_le(sorted@[a]@, sorted@[b]@) && sorted@[a]@ != sorted@[b]@ by {
            if b < j {
                assert(sorted@[a] == before[a] && sorted@[b] == before[b]);
                assert(lex_le(before[a]@, before[b]@) && before[a]@ != before[b]@);
            } else if b == j {
                assert(sorted@[a] == before[a]);
                assert(sorted@[b]@ == xv);
                assert(lex_le(before[j - 1]@, xv));
                if a < j - 1 {
                    assert(lex_le(before[a]@, before[j - 1]@));
                    lemma_lex_trans(before[a]@, before[j - 1]@, xv);
                }
                assert(before[a]@ != xv);
            } else if a == j {
                assert(sorted@[a]@ == xv);
                assert(sorted@[b] == before[b - 1]);
                assert(!lex_le(before[b - 1]@, xv));
                lemma_lex_total(before[b - 1]@, xv);
                assert(before[b - 1]@ != xv);
            } else if a < j {
                assert(sorted@[a] == before[a] && sorted@[b] == before[b - 1]);
                assert(0 <= a < b - 1 < before.len());
                let (p, q) = (a, b - 1);
                assert(lex_le(before[p]@, before[q]@) && before[p]@ != before[q]@);
            } else {
                assert(sorted@[a] == before[a - 1] && sorted@[b] == before[b - 1]);
                assert(0 <= a - 1 < b - 1 < before.len());
                let (p, q) = (a - 1, b - 1);
                assert(0 <= p < q < before.len());
                assert(lex_le(before[p]@, before[q]@));
                assert(before[p]@ != before[q]@);
            }
        }
        assert forall|y: Seq<u8>| #[trigger] has_key(sorted@, y) <==> (y == xv || has_key(before, y)) by {
            if exists|m: int| 0 <= m < sorted@.len() && sorted@[m]@ == y {
                let m = choose|m: int| 0 <= m < sorted@.len() && sorted@[m]@ == y;
                if m < j {
                    assert(before[m] == sorted@[m]);
                } else if m > j {
                    assert(before[m - 1] == sorted@[m]);
                }
            }
            if y == xv {
                assert(sorted@[j as int]@ == y);
            }
            if exists|m: int| 0 <= m < before.len() && before[m]@ == y {
                let m = choose|m: int| 0 <= m < before.len() && before[m]@ == y;
                if m < j {
                    assert(sorted@[m] == before[m]);
                } else {
                    assert(sorted@[m + 1] == before[m]);
                }
            }
        }
    }
}

impl WorldState {
    /// The modified accounts with their addresses, in ascending byte order
    /// of the addresses.
    pub fn modified_accounts(&self) -> (r: Vec<(Vec<u8>, Account)>)
        ensures
            r@.len() == self.modified().dom().len(),
            forall|i: int| 0 <= i < r@.len() ==> self.modified().contains_key(#[trigger] r@[i].0@)
                && r@[i].1@ == self.modified()[r@[i].0@],
            forall|k: Seq<u8>| #[trigger] self.modified().contains_key(k) ==> exists|i: int| 0 <= i < r@.len() && r@[i].0@ == k,
            forall|i: int, j: int| 0 <= i < j < r@.len() ==> lex_le(r@[i].0@, r@[j].0@) && r@[i].0@ != r@[j].0@,
    {
        let ks = self.cache.keys();
        let mut sorted: Vec<Vec<u8>> = Vec::new();
        let mut i: usize = 0;
        while i < ks.len()
            invariant
                i <= ks@.len(),
                forall|a: int, b: int| 0 <= a < b < ks@.len() ==> ks@[a]@ != ks@[b]@,
                sorted@.len() == i,
                forall|a: int, b: int| 0 <= a < b < sorted@.len() ==> lex_le(sorted@[a]@, sorted@[b]@) && sorted@[a]@ != sorted@[b]@,
                forall|y: Seq<u8>| #[trigger] has_key(sorted@, y) <==> has_key(ks@.subrange(0, i as int), y),
            decreases ks@.len() - i,
        {
            let x = vstd::slice::slice_to_vec(ks[i].as_slice());
            let ghost before = sorted@;
            proof {
                assert(!has_key(ks@.subrange(0, i as int), x@)) by {
                    if has_key(ks@.subrange(0, i as int), x@) {
                        let m = choose|m: int| 0 <= m < i && ks@.subrange(0, i as int)[m]@ == x@;
                        assert(ks@[m]@ == ks@[i as int]@);
                    }
                }
                assert forall|m: int| 0 <= m < sorted@.len() implies sorted@[m]@ != x@ by {
                    if sorted@[m]@ == x@ {
                        assert(has_key(sorted@, x@));
                    }
                }
            }
            insert_sorted(&mut sorted, x);
            proof {
                assert forall|y: Seq<u8>| #[trigger] has_key(sorted@, y) <==> has_key(ks@.subrange(0, i + 1), y) by {
                    let s0 = ks@.subrange(0, i as int);
                    let s1 = ks@.subrange(0, i + 1);
                    if has_key(s1, y) {
                        let m = choose|m: int| 0 <= m < s1.len() && s1[m]@ == y;
                        if m < i {
                            assert(s0[m] == s1[m]);
                            assert(has_key(s0, y));
                        }
                    }
                    if has_key(s0, y) {
                        let m = choose|m: int| 0 <= m < s0.len() && s0[m]@ == y;
                        assert(s1[m] == s0[m]);
                    }
                    if y == ks@[i as int]@ {
                        assert(s1[i as int]@ == y);
                    }
                }
            }
            i += 1;
        }
        proof {
            assert(ks@.subrange(0, i as int) =~= ks@);
            assert forall|m: int| 0 <= m < sorted@.len() implies self.cache@.contains_key(#[trigger] sorted@[m]@) by {
                assert(has_key(sorted@, sorted@[m]@));
                let j = choose|j: int| 0 <= j < ks@.len() && ks@[j]@ == sorted@[m]@;
            }
        }
        let mut r: Vec<(Vec<u8>, Account)> = Vec::new();
        let mut k: usize = 0;
        while k < sorted.len()
            invariant
                k <= sorted@.len(),
                sorted@.len() == ks@.len(),
                r@.len() == k,
                forall|m: int| 0 <= m < sorted@.len() ==> self.cache@.contains_key(#[trigger] sorted@[m]@),
                forall|m: int| 0 <= m < k ==> (#[trigger] r@[m]).0@ == sorted@[m]@ && r@[m].1@ == self.cache@[sorted@[m]@],
            decreases sorted@.len() - k,
        {
            match self.cache.get(sorted[k].as_slice()) {
                Some(a) => {
                    r.push((vstd::slice::slice_to_vec(sorted[k].as_slice()), a.duplicate()));
                },
                None => {
                    proof {
                        assert(self.cache@.contains_key(sorted@[k as int]@));
                    }
                },
            }
            k += 1;
        }
        proof {
            assert forall|kk: Seq<u8>| #[trigger] self.modified().contains_key(kk) implies exists|i: int| 0 <= i < r@.len() && r@[i].0@ == kk by {
                let j = choose|j: int| 0 <= j < ks@.len() && ks@[j]@ == kk;
                assert(has_key(ks@, kk));
                assert(has_key(sorted@, kk));
                let m = choose|m: int| 0 <= m < sorted@.len() && sorted@[m]@ == kk;
                assert(r@[m].0@ == kk);
            }
            assert forall|a: int, b: int| 0 <= a < b < r@.len() implies lex_le(r@[a].0@, r@[b].0@) && r@[a].0@ != r@[b].0@ by {
                assert(r@[a].0@ == sorted@[a]@ && r@[b].0@ == sorted@[b]@);
            }
        }
        r
    }
}

} // verus!
