use thunder::block::Block;
use thunder::keymap::KeyedMap;
use thunder::opcode::{Instruction, OpCode};
use thunder::state::Account;
use thunder::crypto::{address_to_hex, hash_to_hex, KeyPair};
use thunder::node::{Node, NodeConfig};
use thunder::query::{block_gas_used, transaction_hash_text, TxPosition, HISTORY_BLOCKS};
use thunder::transaction::Transaction;

fn node() -> Node {
    Node::new(KeyPair::from_secret_bytes(&[7u8; 32]), NodeConfig::default())
}

fn transfer(nonce: u64, from: [u8; 20], to: [u8; 20], gas_limit: u64) -> Transaction {
    Transaction::new_transfer(1, nonce, from, to, 5, gas_limit, 1)
}

fn push_block(node: &mut Node, txs: Vec<Transaction>, timestamp: u64) {
    let prev = node.chain.last().unwrap().duplicate();
    let b = Block::new(&prev, txs, [0u8; 32], [9u8; 20], [0u8; 32], timestamp, 1, 0);
    node.chain.push(b);
}

#[test]
fn hash_text_is_prefixed_hex_of_the_hash() {
    let tx = transfer(0, [1; 20], [2; 20], 21_000);
    assert_eq!(transaction_hash_text(&tx), format!("0x{}", hash_to_hex(&tx.hash())));
    assert_eq!(transaction_hash_text(&tx).len(), 66);
}

#[test]
fn find_transaction_prefers_mempool_then_newest_block() {
    let mut n = node();
    let a = transfer(1, [1; 20], [2; 20], 21_000);
    let b = transfer(2, [1; 20], [2; 20], 21_000);
    let c = transfer(3, [1; 20], [2; 20], 21_000);
    let text_a = transaction_hash_text(&a);
    let text_b = transaction_hash_text(&b);
    let text_c = transaction_hash_text(&c);
    push_block(&mut n, vec![a.duplicate(), b.duplicate()], 10);
    push_block(&mut n, vec![c.duplicate(), b.duplicate()], 20);
    assert_eq!(n.find_transaction(&text_a), Some(TxPosition::Included(1, 0)));
    // b is in both blocks: the newest block wins.
    assert_eq!(n.find_transaction(&text_b), Some(TxPosition::Included(2, 1)));
    assert_eq!(n.find_transaction(&text_c), Some(TxPosition::Included(2, 0)));
    n.mempool.push(c.duplicate());
    assert_eq!(n.find_transaction(&text_c), Some(TxPosition::Pending(0)));
    // Upper-case hex or a missing prefix does not match.
    assert_eq!(n.find_transaction(&text_a.to_uppercase()), None);
    assert_eq!(n.find_transaction(&text_a[2..]), None);
    assert_eq!(n.find_transaction("0x00"), None);
}

#[test]
fn address_history_newest_first_last_transaction_first() {
    let mut n = node();
    let me = [3u8; 20];
    let other = [4u8; 20];
    push_block(&mut n, vec![transfer(0, me, other, 1), transfer(1, other, other, 1), transfer(2, other, me, 1)], 10);
    push_block(&mut n, vec![transfer(3, other, other, 1)], 20);
    push_block(&mut n, vec![transfer(4, me, me, 1)], 30);
    let text = address_to_hex(&me);
    assert_eq!(n.address_history(&text), vec![(3, 0), (1, 2), (1, 0)]);
    assert_eq!(n.address_history(&text.to_uppercase()), Vec::<(usize, usize)>::new());
    assert_eq!(n.address_history("0x0"), Vec::<(usize, usize)>::new());
}

#[test]
fn address_history_looks_at_the_newest_blocks_only() {
    let mut n = node();
    let me = [3u8; 20];
    push_block(&mut n, vec![transfer(0, me, [4; 20], 1)], 1);
    for i in 0..HISTORY_BLOCKS {
        push_block(&mut n, vec![], 2 + i as u64);
    }
    // Block 1 is the 102nd newest: out of reach.
    assert_eq!(n.chain.len(), HISTORY_BLOCKS + 2);
    assert!(n.address_history(&address_to_hex(&me)).is_empty());
    n.chain.pop();
    assert_eq!(n.address_history(&address_to_hex(&me)), vec![(1, 0)]);
}

#[test]
fn block_gas_used_sums_gas_limits() {
    let mut n = node();
    assert_eq!(block_gas_used(&n.chain[0]), 0);
    push_block(&mut n, vec![transfer(0, [1; 20], [2; 20], 21_000), transfer(1, [1; 20], [2; 20], 50_000)], 5);
    assert_eq!(block_gas_used(&n.chain[1]), 71_000);
}

#[test]
fn view_call_reads_contract_storage_without_changing_it() {
    let mut n = node();
    let contract = [5u8; 20];
    let mut storage = KeyedMap::new();
    storage.insert(7u64.to_le_bytes().to_vec(), 99u64.to_le_bytes().to_vec());
    let mut acct = Account::with_balance(0);
    acct.code = vec![1];
    acct.storage = storage;
    n.state.set_account(&contract, acct);
    let read = vec![
        Instruction::with_operand(OpCode::Push, 7),
        Instruction::new(OpCode::SLoad),
        Instruction::new(OpCode::Halt),
    ];
    let res = n.view_call(&contract, read, 1_000).unwrap();
    assert_eq!(res.return_value, Some(99));
    assert!(!res.reverted);
    // A write in a view call does not reach the node's state.
    let write = vec![
        Instruction::with_operand(OpCode::Push, 7),
        Instruction::with_operand(OpCode::Push, 5),
        Instruction::new(OpCode::SStore),
        Instruction::with_operand(OpCode::Push, 7),
        Instruction::new(OpCode::SLoad),
        Instruction::new(OpCode::Halt),
    ];
    assert_eq!(n.view_call(&contract, write, 1_000).unwrap().return_value, Some(5));
    let again = vec![
        Instruction::with_operand(OpCode::Push, 7),
        Instruction::new(OpCode::SLoad),
        Instruction::new(OpCode::Halt),
    ];
    assert_eq!(n.view_call(&contract, again, 1_000).unwrap().return_value, Some(99));
    // The caller is the zero address; the height is the node's.
    let who = vec![Instruction::new(OpCode::Caller), Instruction::new(OpCode::Halt)];
    assert_eq!(n.view_call(&contract, who, 1).unwrap().return_value, Some(0));
    let at = vec![Instruction::new(OpCode::BlockHeight), Instruction::new(OpCode::Halt)];
    assert_eq!(n.view_call(&contract, at, 1).unwrap().return_value, Some(0));
    let underflow = vec![Instruction::new(OpCode::Add)];
    assert!(n.view_call(&contract, underflow, 1).is_err());
}
