//! The decisions behind the node's JSON-RPC methods: reading the addresses
//! and keys that parameters name, checking a submitted transaction's chain,
//! building the faucet's transfer, and which error code and message answer
//! which failure. Decoding JSON, sharing the node and writing replies are
//! left to the server around it.

use vstd::prelude::*;
use crate::crypto::{address_from_hex, hex_decode, hex_text, spec_address, spec_hex_decode, spec_public_key, spec_sign, strip_0x, Address};
use crate::node::{admission, Node, NodeError};
use crate::pos::{stake_error_text, StakeError};
use crate::protocol::JsonRpcError;
use crate::query::{transaction_hash_text, tx_hash_text};
use crate::state::account_of;
use crate::text::{decimal, decimal_text_u64};
use crate::transaction::{tx_hash, Transaction, TransactionKind};

verus! {

/// The request body is not JSON-RPC.
pub const PARSE_ERROR: i64 = -32700;
/// No such method.
pub const METHOD_NOT_FOUND: i64 = -32601;
/// A parameter could not be read.
pub const INVALID_PARAMS: i64 = -32602;
/// The node could not do what was asked.
pub const SERVER_ERROR: i64 = -32000;
/// The mempool refused a transaction.
pub const TX_REFUSED: i64 = -32001;

/// Chain of the faucet's transfers.
pub const FAUCET_CHAIN_ID: u64 = 1;
/// Gas limit of the faucet's transfers.
pub const FAUCET_GAS_LIMIT: u64 = 21000;

/// Why a call that submits a transaction failed.
pub enum SubmitError {
    /// An error answered as it stands.
    Rpc(JsonRpcError),
    /// The mempool refused the transaction; answered with `TX_REFUSED` and
    /// the reason's text.
    Refused(NodeError),
}

/// The JSON-RPC method handlers.
pub struct RpcHandler;

/// Text that `address_from_hex` reads as an address.
pub open spec fn address_text_ok(s: Seq<char>) -> bool {
    hex_text(strip_0x(s))
}

/// The address that such text names.
pub open spec fn address_of_text(s: Seq<char>) -> Seq<u8> {
    spec_hex_decode(strip_0x(s)).subrange(0, 20)
}

/// Text that `address_from_hex` can read without running short: if it is
/// hex at all, it has at least 20 bytes' worth of digits.
pub open spec fn address_text_fits(s: Seq<char>) -> bool {
    hex_text(strip_0x(s)) ==> strip_0x(s).len() >= 40
}

/// The message for a transaction of the wrong chain.
pub open spec fn chain_mismatch_text(expected: u64, got: u64) -> Seq<char> {
    "Invalid Chain ID. Expected "@ + decimal(expected as nat) + ", got "@ + decimal(got as nat)
}

/// The message for an unknown method.
pub open spec fn unknown_method_text(method: Seq<char>) -> Seq<char> {
    "method '"@ + method + "' not found"@
}

/// The faucet's transfer: `amount` to `to` from the node's key, signed by
/// it, on the faucet's chain with the faucet's gas limit.
pub open spec fn is_faucet_transfer(t: Transaction, secret: Seq<u8>, to: Seq<u8>, amount: u64, gas_price: u64, nonce: u64) -> bool {
    &&& t.chain_id == FAUCET_CHAIN_ID
    &&& t.nonce == nonce
    &&& t.to@ == to
    &&& t.value == amount
    &&& t.data@ == Seq::<u8>::empty()
    &&& t.gas_limit == FAUCET_GAS_LIMIT
    &&& t.gas_price == gas_price
    &&& t.kind == TransactionKind::Transfer
    &&& t.public_key@ == spec_public_key(secret)
    &&& t.from@ == spec_address(spec_public_key(secret))
    &&& t.signature@ == spec_sign(secret, tx_hash(t))
}

/// What submitting `tx` to a mempool `pool` over `accounts` answers, and
/// the mempool after it.
pub open spec fn submitted(
    pool: Seq<Transaction>,
    accounts: Map<Seq<u8>, crate::state::AccountView>,
    tx: Transaction,
    r: Result<String, SubmitError>,
    after: Seq<Transaction>,
) -> bool {
    match admission(pool, accounts, tx) {
        Ok(()) => r matches Ok(h) && h@ == tx_hash_text(tx) && after == pool.push(tx),
        Err(why) => r matches Err(SubmitError::Refused(w)) && w == why && after == pool,
    }
}

/// A JSON-RPC error object.
fn rpc_error(code: i64, message: &str) -> (e: JsonRpcError)
    ensures
        e.code == code,
        e.message@ == message@,
{
    JsonRpcError { code, message: String::from_str(message) }
}

impl RpcHandler {
    /// `thunder_getBalance`: the balance at the address the text names, or
    /// 0 when the text names no address.
    pub fn balance_of(node: &Node, address_text: &str) -> (b: u64)
        requires
            address_text_fits(address_text@),
        ensures
            b == (if address_text_ok(address_text@) {
                account_of(node.state.accounts(), address_of_text(address_text@)).balance
            } else {
                0
            }),
    {
        match address_from_hex(address_text) {
            Ok(a) => node.state.get_balance(&a),
            Err(_) => 0,
        }
    }

    /// `thunder_sendTransaction`, once the transaction is decoded: refused
    /// with `SERVER_ERROR` when it is for another chain than `chain_id`,
    /// else handed to the mempool; the answer is its hash text.
    pub fn send_transaction(node: &mut Node, chain_id: u64, tx: Transaction) -> (r: Result<String, SubmitError>)
        ensures
            tx.chain_id != chain_id ==> *final(node) == *old(node) && (r matches Err(SubmitError::Rpc(e))
                && e.code == SERVER_ERROR && e.message@ == chain_mismatch_text(chain_id, tx.chain_id)),
            tx.chain_id == chain_id ==> submitted(old(node).mempool@, old(node).state.accounts(), tx, r, final(node).mempool@),
            final(node).state == old(node).state,
            final(node).chain == old(node).chain,
            final(node).consensus == old(node).consensus,
            final(node).validator_set == old(node).validator_set,
            final(node).key_pair == old(node).key_pair,
    {
        if tx.chain_id != chain_id {
            let mut m = String::from_str("Invalid Chain ID. Expected ");
            let expected = decimal_text_u64(chain_id);
            m.append(expected.as_str());
            m.append(", got ");
            let got = decimal_text_u64(tx.chain_id);
            m.append(got.as_str());
            return Err(SubmitError::Rpc(JsonRpcError { code: SERVER_ERROR, message: m }));
        }
        let hash = transaction_hash_text(&tx);
        match node.add_transaction(tx) {
            Ok(()) => Ok(hash),
            Err(e) => Err(SubmitError::Refused(e)),
        }
    }

    /// `thunder_registerValidator`: the address text and the 32-byte public
    /// key in hex must both read, else `INVALID_PARAMS`; a refused
    /// registration answers `SERVER_ERROR` with its reason.
    pub fn register_validator(node: &mut Node, address_text: &str, public_key_text: &str, stake: u64) -> (r: Result<(), JsonRpcError>)
        requires
            old(node).wf(),
            address_text_fits(address_text@),
            address_text_ok(address_text@) && hex_text(public_key_text@) && spec_hex_decode(public_key_text@).len() == 32
                && stake >= old(node).validator_set.minimum()
                && old(node).validator_set.position_of(address_of_text(address_text@)) is None
                ==> old(node).validator_set.total() + stake <= u64::MAX,
        ensures
            final(node).wf(),
            final(node).state == old(node).state,
            final(node).chain == old(node).chain,
            final(node).mempool == old(node).mempool,
            ({
                let readable = address_text_ok(address_text@) && hex_text(public_key_text@)
                    && spec_hex_decode(public_key_text@).len() == 32;
                let vs = old(node).validator_set;
                let addr = address_of_text(address_text@);
                &&& !readable ==> *final(node) == *old(node) && (r matches Err(e) && e.code == INVALID_PARAMS
                    && e.message@ == "Invalid address or pubkey"@)
                &&& readable ==> (r is Ok <==> stake >= vs.minimum() && vs.position_of(addr) is None)
                &&& readable && r is Err ==> final(node).validator_set.members() == vs.members()
                &&& readable ==> (r matches Err(e) ==> e.code == SERVER_ERROR && e.message@ == (if stake < vs.minimum() {
                    stake_error_text(StakeError::BelowMinimumStake { minimum: vs.minimum(), provided: stake })
                } else {
                    stake_error_text(StakeError::AlreadyRegistered)
                }))
                &&& readable && r is Ok ==> {
                    let members = final(node).validator_set.members();
                    &&& members.len() == vs.members().len() + 1
                    &&& members.drop_last() == vs.members()
                    &&& members.last().address@ == addr
                    &&& members.last().public_key@ == spec_hex_decode(public_key_text@)
                    &&& members.last().stake == stake
                    &&& members.last().is_active
                }
            }),
    {
        let addr = address_from_hex(address_text);
        let key = hex_decode(public_key_text);
        let (addr, bytes) = match (addr, key) {
            (Ok(a), Ok(b)) => {
                if b.len() != 32 {
                    return Err(rpc_error(INVALID_PARAMS, "Invalid address or pubkey"));
                }
                (a, b)
            },
            _ => {
                return Err(rpc_error(INVALID_PARAMS, "Invalid address or pubkey"));
            },
        };
        let mut pk = [0u8; 32];
        let mut i: usize = 0;
        while i < 32
            invariant
                i <= 32,
                bytes@.len() == 32,
                forall|j: int| 0 <= j < i ==> #[trigger] pk@[j] == bytes@[j],
            decreases 32 - i,
        {
            pk.set(i, bytes[i]);
            i += 1;
        }
        assert(pk@ =~= bytes@);
        match node.register_validator(addr, pk, stake) {
            Ok(()) => {
                proof {
                    let members = node.validator_set.members();
                    assert(members.drop_last() =~= old(node).validator_set.members());
                }
                Ok(())
            },
            Err(m) => Err(JsonRpcError { code: SERVER_ERROR, message: m }),
        }
    }

    /// `thunder_requestFaucet`: send `amount` from the node's own key to the
    /// address the text names, as a transfer signed by the node with the
    /// given gas price and nonce. Text that names no address answers
    /// `INVALID_PARAMS`.
    pub fn faucet(node: &mut Node, to_text: &str, amount: u64, gas_price: u64, nonce: u64) -> (r: Result<String, SubmitError>)
        requires
            address_text_fits(to_text@),
        ensures
            !address_text_ok(to_text@) ==> *final(node) == *old(node) && (r matches Err(SubmitError::Rpc(e))
                && e.code == INVALID_PARAMS && e.message@ == "Invalid Address Format"@),
            address_text_ok(to_text@) ==> exists|t: Transaction| {
                &&& is_faucet_transfer(t, old(node).key_pair.secret(), address_of_text(to_text@), amount, gas_price, nonce)
                &&& submitted(old(node).mempool@, old(node).state.accounts(), t, r, final(node).mempool@)
            },
            final(node).state == old(node).state,
            final(node).chain == old(node).chain,
            final(node).consensus == old(node).consensus,
            final(node).validator_set == old(node).validator_set,
            final(node).key_pair == old(node).key_pair,
    {
        let to = match address_from_hex(to_text) {
            Ok(a) => a,
            Err(_) => {
                return Err(SubmitError::Rpc(rpc_error(INVALID_PARAMS, "Invalid Address Format")));
            },
        };
        let mut tx = Transaction::new_transfer(
            FAUCET_CHAIN_ID,
            nonce,
            node.key_pair.address(),
            to,
            amount,
            FAUCET_GAS_LIMIT,
            gas_price,
        );
        tx.sign(&node.key_pair);
        let ghost t = tx;
        let hash = transaction_hash_text(&tx);
        let r = match node.add_transaction(tx) {
            Ok(()) => Ok(hash),
            Err(e) => Err(SubmitError::Refused(e)),
        };
        assert(is_faucet_transfer(t, old(node).key_pair.secret(), address_of_text(to_text@), amount, gas_price, nonce));
        r
    }

    /// `thunder_call`, before the code is decoded: the target address text
    /// and the call data hex must both read, else `INVALID_PARAMS`; the
    /// target must hold code, else `SERVER_ERROR`. Gives the target and its
    /// code.
    pub fn contract_code(node: &Node, to_text: &str, data_text: &str) -> (r: Result<(Address, Vec<u8>), JsonRpcError>)
        requires
            address_text_fits(to_text@),
        ensures
            ({
                let readable = address_text_ok(to_text@) && hex_text(data_text@);
                let code = account_of(node.state.accounts(), address_of_text(to_text@)).code;
                &&& !readable ==> (r matches Err(e) && e.code == INVALID_PARAMS && e.message@ == "Invalid arguments"@)
                &&& readable && code.len() == 0 ==> (r matches Err(e) && e.code == SERVER_ERROR
                    && e.message@ == "Address is not a contract"@)
                &&& readable && code.len() > 0 ==> (r matches Ok((a, c)) && a@ == address_of_text(to_text@) && c@ == code)
            }),
    {
        let addr = address_from_hex(to_text);
        let data = hex_decode(data_text);
        let to = match (addr, data) {
            (Ok(a), Ok(_)) => a,
            _ => {
                return Err(rpc_error(INVALID_PARAMS, "Invalid arguments"));
            },
        };
        let account = node.state.get_account(&to);
        if account.code.len() == 0 {
            return Err(rpc_error(SERVER_ERROR, "Address is not a contract"));
        }
        Ok((to, account.code))
    }

    /// The answer to a method the server does not know.
    pub fn unknown_method(method: &str) -> (e: JsonRpcError)
        ensures
            e.code == METHOD_NOT_FOUND,
            e.message@ == unknown_method_text(method@),
    {
        let mut m = String::from_str("method '");
        m.append(method);
        m.append("' not found");
        JsonRpcError { code: METHOD_NOT_FOUND, message: m }
    }
}

} // verus!
