use thunder::crypto::{address_to_hex, hash_to_hex, KeyPair};
use thunder::node::{Node, NodeConfig, NodeError};
use thunder::query::transaction_hash_text;
use thunder::rpc::{RpcHandler, SubmitError, INVALID_PARAMS, METHOD_NOT_FOUND, SERVER_ERROR};
use thunder::state::Account;
use thunder::transaction::Transaction;

fn node() -> Node {
    Node::new(KeyPair::from_secret_bytes(&[11u8; 32]), NodeConfig::default())
}

#[test]
fn balance_of_reads_the_named_account() {
    let mut n = node();
    let a = [6u8; 20];
    n.state.set_account(&a, Account::with_balance(1234));
    assert_eq!(RpcHandler::balance_of(&n, &address_to_hex(&a)), 1234);
    // Without the prefix, and in upper case, the text still names it.
    assert_eq!(RpcHandler::balance_of(&n, &address_to_hex(&a)[2..]), 1234);
    assert_eq!(RpcHandler::balance_of(&n, &address_to_hex(&a).to_uppercase().replace("0X", "0x")), 1234);
    assert_eq!(RpcHandler::balance_of(&n, &address_to_hex(&[7u8; 20])), 0);
    // Text that is no address reads as balance 0.
    assert_eq!(RpcHandler::balance_of(&n, "0x0"), 0);
    assert_eq!(RpcHandler::balance_of(&n, "not hex"), 0);
}

#[test]
fn send_transaction_checks_the_chain_then_the_mempool() {
    let mut n = node();
    let sender = KeyPair::from_secret_bytes(&[12u8; 32]);
    n.state.set_account(&sender.address(), Account::with_balance(1_000_000));
    let mut other_chain = Transaction::new_transfer(2, 0, sender.address(), [1; 20], 5, 21_000, 1);
    other_chain.sign(&sender);
    match RpcHandler::send_transaction(&mut n, 1, other_chain) {
        Err(SubmitError::Rpc(e)) => {
            assert_eq!(e.code, SERVER_ERROR);
            assert_eq!(e.message, "Invalid Chain ID. Expected 1, got 2");
        }
        _ => panic!("wrong chain accepted"),
    }
    assert!(n.mempool.is_empty());
    let unsigned = Transaction::new_transfer(1, 0, sender.address(), [1; 20], 5, 21_000, 1);
    match RpcHandler::send_transaction(&mut n, 1, unsigned) {
        Err(SubmitError::Refused(why)) => assert_eq!(why, NodeError::InvalidSignature),
        _ => panic!("unsigned accepted"),
    }
    let mut good = Transaction::new_transfer(1, 0, sender.address(), [1; 20], 5, 21_000, 1);
    good.sign(&sender);
    let expected = transaction_hash_text(&good);
    match RpcHandler::send_transaction(&mut n, 1, good) {
        Ok(h) => assert_eq!(h, expected),
        _ => panic!("good transaction refused"),
    }
    assert_eq!(n.mempool.len(), 1);
}

#[test]
fn register_validator_reads_parameters_and_reports_refusals() {
    let mut n = node();
    let addr = address_to_hex(&[8u8; 20]);
    let key = hash_to_hex(&[9u8; 32]);
    let e = RpcHandler::register_validator(&mut n, "zz", &key, 5000).unwrap_err();
    assert_eq!((e.code, e.message.as_str()), (INVALID_PARAMS, "Invalid address or pubkey"));
    let e = RpcHandler::register_validator(&mut n, &addr, &"09".repeat(31), 5000).unwrap_err();
    assert_eq!((e.code, e.message.as_str()), (INVALID_PARAMS, "Invalid address or pubkey"));
    let e = RpcHandler::register_validator(&mut n, &addr, &key, 10).unwrap_err();
    assert_eq!((e.code, e.message.as_str()), (SERVER_ERROR, "stake 10 is below minimum 1000"));
    assert_eq!(n.validator_set.count(), 0);
    RpcHandler::register_validator(&mut n, &addr, &key, 5000).unwrap();
    let v = n.validator_set.get(&[8u8; 20]).unwrap();
    assert_eq!(v.stake, 5000);
    assert_eq!(v.public_key, [9u8; 32]);
    assert_eq!(n.consensus.validators, vec![[8u8; 20]]);
    let e = RpcHandler::register_validator(&mut n, &addr, &key, 5000).unwrap_err();
    assert_eq!((e.code, e.message.as_str()), (SERVER_ERROR, "validator already registered"));
}

#[test]
fn faucet_sends_a_signed_transfer_from_the_node() {
    let mut n = node();
    let e = match RpcHandler::faucet(&mut n, "xyz", 10, 1, 3) {
        Err(SubmitError::Rpc(e)) => e,
        _ => panic!("bad address accepted"),
    };
    assert_eq!((e.code, e.message.as_str()), (INVALID_PARAMS, "Invalid Address Format"));
    let to = [4u8; 20];
    match RpcHandler::faucet(&mut n, &address_to_hex(&to), 10, 1, 3) {
        Err(SubmitError::Refused(NodeError::InsufficientBalance { required, value, fee, available })) => {
            assert_eq!((required, value, fee, available), (21_010, 10, 21_000, 0));
        }
        _ => panic!("unfunded faucet transfer accepted"),
    }
    let me = n.key_pair.address();
    n.state.set_account(&me, Account::with_balance(100_000));
    let h = match RpcHandler::faucet(&mut n, &address_to_hex(&to), 10, 2, 3) {
        Ok(h) => h,
        _ => panic!("funded faucet transfer refused"),
    };
    let tx = &n.mempool[0];
    assert_eq!(h, transaction_hash_text(tx));
    assert_eq!((tx.chain_id, tx.nonce, tx.value, tx.gas_limit, tx.gas_price), (1, 3, 10, 21_000, 2));
    assert_eq!((tx.from, tx.to), (me, to));
    assert!(tx.verify_signature());
}

#[test]
fn contract_code_needs_readable_arguments_and_code() {
    let mut n = node();
    let c = [5u8; 20];
    let e = RpcHandler::contract_code(&n, "nope", "").unwrap_err();
    assert_eq!((e.code, e.message.as_str()), (INVALID_PARAMS, "Invalid arguments"));
    let e = RpcHandler::contract_code(&n, &address_to_hex(&c), "abc").unwrap_err();
    assert_eq!((e.code, e.message.as_str()), (INVALID_PARAMS, "Invalid arguments"));
    let e = RpcHandler::contract_code(&n, &address_to_hex(&c), "").unwrap_err();
    assert_eq!((e.code, e.message.as_str()), (SERVER_ERROR, "Address is not a contract"));
    let mut acct = Account::with_balance(0);
    acct.code = vec![1, 2, 3];
    n.state.set_account(&c, acct);
    let (to, code) = RpcHandler::contract_code(&n, &address_to_hex(&c), "00ff").unwrap();
    assert_eq!(to, c);
    assert_eq!(code, vec![1, 2, 3]);
}

#[test]
fn unknown_method_names_the_method() {
    let e = RpcHandler::unknown_method("thunder_nothing");
    assert_eq!(e.code, METHOD_NOT_FOUND);
    assert_eq!(e.message, "method 'thunder_nothing' not found");
}

#[test]
fn test_unknown_method() {
    let e = RpcHandler::unknown_method("unknown_method");
    assert_eq!(e.code, -32601);
}
