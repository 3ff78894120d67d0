use thunder::crypto::{hash_sha256, hash_to_hex, KeyPair, SerializableKeyPair};
use thunder::node::{Node, NodeConfig, NodeError};
use thunder::state::{state_root, Account, WorldState};
use thunder::transaction::{Transaction, TransactionKind};

fn temp_node() -> Node {
    let kp = KeyPair::generate();
    let config = NodeConfig { data_dir: "./data-test".to_string(), ..Default::default() };
    Node::new(kp, config)
}

#[test]
fn test_node_genesis() {
    let node = temp_node();
    assert_eq!(node.height(), 0);
    assert_eq!(node.chain.len(), 1);
}

#[test]
fn test_register_validator() {
    let mut node = temp_node();
    node.register_as_validator(10_000, None, None).unwrap();
    assert_eq!(node.validator_set.active_count(), 1);
}

#[test]
fn test_add_transaction() {
    let mut node = temp_node();
    let sender = KeyPair::generate();
    let recipient = KeyPair::generate();
    node.state.set_account(&sender.address(), Account::with_balance(1_000_000));
    let mut tx = Transaction::new_transfer(1, 0, sender.address(), recipient.address(), 100, 21_000, 1);
    tx.sign(&sender);
    node.add_transaction(tx).unwrap();
    assert_eq!(node.mempool.len(), 1);
}

#[test]
fn node_config_default() {
    let c = NodeConfig::default();
    assert_eq!(c.data_dir, "./data");
    assert_eq!(c.listen_port, 30303);
    assert_eq!(c.max_peers, 50);
    assert_eq!(c.min_stake, 1000);
}

#[test]
fn add_transaction_errors() {
    let mut node = temp_node();
    let sender = KeyPair::generate();
    let unsigned = Transaction::new_transfer(1, 0, sender.address(), [1u8; 20], 100, 21_000, 1);
    assert_eq!(node.add_transaction(unsigned), Err(NodeError::InvalidSignature));
    let mut poor = Transaction::new_transfer(1, 0, sender.address(), [1u8; 20], 100, 21_000, 1);
    poor.sign(&sender);
    assert_eq!(
        node.add_transaction(poor),
        Err(NodeError::InsufficientBalance { required: 21_100, value: 100, fee: 21_000, available: 0 })
    );
    node.state.set_account(&sender.address(), Account::with_balance(10_000_000));
    for n in 0..5 {
        let mut tx = Transaction::new_transfer(1, n, sender.address(), [1u8; 20], 1, 21_000, 1);
        tx.sign(&sender);
        node.add_transaction(tx).unwrap();
    }
    let mut sixth = Transaction::new_transfer(1, 5, sender.address(), [1u8; 20], 1, 21_000, 1);
    sixth.sign(&sender);
    assert_eq!(
        node.add_transaction(sixth),
        Err(NodeError::RateLimited { address: sender.address(), limit: 5 })
    );
    assert_eq!(node.mempool.len(), 5);
}

#[test]
fn register_twice_fails_and_below_minimum_fails() {
    let mut node = temp_node();
    assert_eq!(node.register_as_validator(10, None, None), Err("stake 10 is below minimum 1000".to_string()));
    node.register_as_validator(5_000, None, None).unwrap();
    assert_eq!(node.register_as_validator(5_000, None, None), Err("validator already registered".to_string()));
    assert_eq!(node.consensus.validators, vec![node.key_pair.address()]);
}

#[test]
fn genesis_registration_mints_and_records_stake() {
    let mut node = temp_node();
    node.register_as_validator(10_000, None, None).unwrap();
    let me = node.key_pair.address();
    assert_eq!(node.state.get_balance(&me), 1_000_000_000_000_000_000);
    let genesis_txs = &node.chain[0].transactions;
    assert_eq!(genesis_txs.len(), 1);
    assert_eq!(genesis_txs[0].kind, TransactionKind::Stake);
    assert_eq!(genesis_txs[0].nonce, 2);
    assert_eq!(genesis_txs[0].value, 10_000);
    assert!(genesis_txs[0].verify_signature());
}

#[test]
fn single_validator_produces_a_block() {
    let mut node = temp_node();
    node.register_as_validator(10_000, None, None).unwrap();
    let me = node.key_pair.address();
    let sender = KeyPair::generate();
    let to = [9u8; 20];
    node.state.set_account(&sender.address(), Account::with_balance(1_000_000));
    let mut tx = Transaction::new_transfer(1, 0, sender.address(), to, 500, 21_000, 1);
    tx.sign(&sender);
    let h = tx.hash();
    node.add_transaction(tx).unwrap();
    let e1 = node.create_event(1).unwrap();
    assert_eq!(e1.payload, vec![h]);
    assert_eq!(e1.self_parent, [0u8; 32]);
    let e2 = node.create_event(2).unwrap();
    assert_eq!(e2.self_parent, e1.hash);
    node.create_event(3).unwrap();
    let before = node.state.get_balance(&me);
    let pending = node.try_produce_block().expect("a block");
    assert_eq!(pending.transactions.len(), 1);
    assert_eq!(pending.base_fee, 1);
    assert_eq!(pending.reward, (21_000 + 10_000_000) / 2);
    assert!(node.mempool.is_empty());
    assert_eq!(node.state.get_balance(&to), 500);
    assert_eq!(node.state.get_balance(&me), before + pending.reward);
    let root = [7u8; 32];
    let prev = node.latest_block().hash();
    let block = node.seal_block(pending, root, 99);
    assert_eq!(block.header.height, 1);
    assert_eq!(block.header.prev_hash, prev);
    assert_eq!(block.header.state_root, root);
    assert!(block.verify_signature());
    assert!(block.verify_tx_root());
    assert_eq!(node.height(), 1);
    assert_eq!(node.get_block(1).unwrap().hash(), block.hash());
    assert!(node.get_block(2).is_none());
    assert!(node.try_produce_block().is_none());
}

#[test]
fn duplicate_event_is_refused() {
    let mut node = temp_node();
    node.create_event(5).unwrap();
    // A second event by the same node has the first as self-parent, so it differs.
    node.create_event(5).unwrap();
    assert_eq!(node.consensus.dag.len(), 2);
}

#[test]
fn state_root_of_parts() {
    assert_eq!(state_root(&vec![]), [0u8; 32]);
    let parts = vec![(vec![1u8, 2], vec![3u8]), (vec![4u8], vec![])];
    assert_eq!(state_root(&parts), hash_sha256(&[1, 2, 3, 4]));
}

#[test]
fn modified_accounts_sorted_by_address() {
    let mut state = WorldState::new();
    state.set_account(&[3u8; 20], Account::with_balance(3));
    state.set_account(&[1u8; 20], Account::with_balance(1));
    state.set_account(&[2u8; 20], Account::with_balance(2));
    let m = state.modified_accounts();
    let keys: Vec<Vec<u8>> = m.iter().map(|(k, _)| k.clone()).collect();
    assert_eq!(keys, vec![vec![1u8; 20], vec![2u8; 20], vec![3u8; 20]]);
    assert_eq!(m[0].1.balance, 1);
    state.commit();
    assert!(state.modified_accounts().is_empty());
    assert_eq!(state.get_balance(&[2u8; 20]), 2);
}

#[test]
fn serializable_key_pair_text() {
    let kp = KeyPair::from_secret_bytes(&[1u8; 32]);
    let s = SerializableKeyPair::from_key_pair(&kp);
    assert_eq!(s.secret_key, "01".repeat(32));
    assert_eq!(s.public_key, hash_to_hex(&kp.public_key()));
    assert_eq!(s.address, thunder::crypto::address_to_hex(&kp.address()));
}

#[test]
fn create_event_picks_another_validators_tip_as_other_parent() {
    let mut node = temp_node();
    let e1 = node.create_event(1).unwrap();
    // Only this node's own event is a tip: no other parent.
    assert_eq!(e1.other_parent, [0u8; 32]);
    let peer = KeyPair::from_secret_bytes(&[21u8; 32]);
    let mut theirs = thunder::consensus_types::Event::new(peer.address(), [0u8; 32], [0u8; 32], vec![], 2);
    theirs.hash = hash_sha256(&theirs.signable_bytes());
    let their_hash = theirs.hash;
    node.consensus.add_event(theirs).unwrap();
    let e2 = node.create_event(3).unwrap();
    assert_eq!(e2.self_parent, e1.hash);
    assert_eq!(e2.other_parent, their_hash);
}

#[test]
fn refused_registration_changes_nothing() {
    let mut node = temp_node();
    let before_height = node.height();
    assert!(node.register_as_validator(999, None, None).is_err());
    assert_eq!(node.validator_set.count(), 0);
    assert!(node.consensus.validators.is_empty());
    assert_eq!(node.height(), before_height);
    assert_eq!(node.chain.len(), 1);
    node.register_as_validator(10_000, None, None).unwrap();
    assert_eq!(node.validator_set.get(&node.key_pair.address()).map(|v| v.stake), Some(10_000));
    assert_eq!(node.consensus.validators, vec![node.key_pair.address()]);
}
