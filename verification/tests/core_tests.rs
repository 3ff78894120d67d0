use thunder::block::Block;
use thunder::crypto::{
    address_from_hex, address_from_public_key, address_to_hex, double_hash, hash_sha256, hash_to_hex,
    verify_signature, HexError, KeyPair,
};
use thunder::merkle::{compute_merkle_root, generate_proof, verify_proof};
use thunder::state::{Account, StateError, WorldState};
use thunder::transaction::{Transaction, TransactionKind};

// ── crypto ─────────────────────────────────────────────────────────────────

#[test]
fn crypto_test_hash_deterministic() {
    let a = hash_sha256(b"thunder");
    let b = hash_sha256(b"thunder");
    assert_eq!(a, b);
}

#[test]
fn test_hash_different_inputs() {
    let a = hash_sha256(b"hello");
    let b = hash_sha256(b"world");
    assert_ne!(a, b);
}

#[test]
fn test_keypair_sign_verify() {
    let kp = KeyPair::generate();
    let msg = b"Thunder Blockchain transaction";
    let sig = kp.sign(msg);
    assert!(verify_signature(&kp.public_key(), msg, &sig));
}

#[test]
fn test_invalid_signature() {
    let kp1 = KeyPair::generate();
    let kp2 = KeyPair::generate();
    let msg = b"Thunder Blockchain transaction";
    let sig = kp1.sign(msg);
    assert!(!verify_signature(&kp2.public_key(), msg, &sig));
}

#[test]
fn test_address_derivation() {
    let kp = KeyPair::generate();
    let addr = kp.address();
    assert_eq!(addr.len(), 20);
    assert_eq!(addr, address_from_public_key(&kp.public_key()));
}

#[test]
fn test_keypair_restore_from_secret() {
    let kp = KeyPair::generate();
    let restored = KeyPair::from_secret_bytes(kp.secret_bytes());
    assert_eq!(kp.public_key(), restored.public_key());
    assert_eq!(kp.address(), restored.address());
}

#[test]
fn test_address_hex_roundtrip() {
    let kp = KeyPair::generate();
    let hex_str = address_to_hex(&kp.address());
    let parsed = address_from_hex(&hex_str).unwrap();
    assert_eq!(kp.address(), parsed);
}

#[test]
fn sha256_known_value() {
    // SHA-256 of "abc".
    let h = hash_sha256(b"abc");
    assert_eq!(
        hash_to_hex(&h),
        "ba7816bf8f01cfea414140de5dae2223b00361a396177a9cb410ff61f20015ad"
    );
}

#[test]
fn double_hash_is_hash_of_hash() {
    let once = hash_sha256(b"thunder");
    assert_eq!(double_hash(b"thunder"), hash_sha256(&once));
    assert_ne!(double_hash(b"thunder"), once);
}

#[test]
fn address_hex_has_prefix_and_accepts_bare_hex() {
    let addr = [0xabu8; 20];
    let s = address_to_hex(&addr);
    assert_eq!(s, format!("0x{}", "ab".repeat(20)));
    assert_eq!(address_from_hex(&"ab".repeat(20)).unwrap(), addr);
}

#[test]
fn address_from_hex_errors() {
    assert!(matches!(address_from_hex("0xzz"), Err(HexError::InvalidHexCharacter { .. })));
    assert!(matches!(address_from_hex("0xabc"), Err(HexError::OddLength)));
}

#[test]
fn secret_bytes_roundtrip() {
    let secret = [7u8; 32];
    let kp = KeyPair::from_secret_bytes(&secret);
    assert_eq!(kp.secret_bytes(), &secret);
}

// ── merkle ─────────────────────────────────────────────────────────────────

#[test]
fn test_empty_tree() {
    assert_eq!(compute_merkle_root(&[]), [0u8; 32]);
}

#[test]
fn test_single_element() {
    let h = hash_sha256(b"tx1");
    assert_eq!(compute_merkle_root(&[h]), h);
}

#[test]
fn test_two_elements() {
    let h1 = hash_sha256(b"tx1");
    let h2 = hash_sha256(b"tx2");
    let root = compute_merkle_root(&[h1, h2]);
    assert_ne!(root, h1);
    assert_ne!(root, h2);
}

#[test]
fn test_deterministic() {
    let hashes: Vec<[u8; 32]> = (0..5).map(|i| hash_sha256(&[i as u8])).collect();
    let r1 = compute_merkle_root(&hashes);
    let r2 = compute_merkle_root(&hashes);
    assert_eq!(r1, r2);
}

#[test]
fn test_proof_roundtrip() {
    let hashes: Vec<[u8; 32]> = (0..8).map(|i| hash_sha256(&[i as u8])).collect();
    let root = compute_merkle_root(&hashes);
    for i in 0..hashes.len() {
        let proof = generate_proof(&hashes, i);
        assert!(verify_proof(&root, &hashes[i], &proof));
    }
}

#[test]
fn test_proof_invalid_leaf() {
    let hashes: Vec<[u8; 32]> = (0..4).map(|i| hash_sha256(&[i as u8])).collect();
    let root = compute_merkle_root(&hashes);
    let proof = generate_proof(&hashes, 0);
    let fake_hash = hash_sha256(b"fake");
    assert!(!verify_proof(&root, &fake_hash, &proof));
}

#[test]
fn merkle_two_leaves_is_hash_of_pair() {
    let h1 = hash_sha256(b"tx1");
    let h2 = hash_sha256(b"tx2");
    let mut both = h1.to_vec();
    both.extend_from_slice(&h2);
    assert_eq!(compute_merkle_root(&[h1, h2]), hash_sha256(&both));
}

#[test]
fn merkle_odd_count_duplicates_last() {
    let hs: Vec<[u8; 32]> = (0..3).map(|i| hash_sha256(&[i as u8])).collect();
    let padded = vec![hs[0], hs[1], hs[2], hs[2]];
    assert_eq!(compute_merkle_root(&hs), compute_merkle_root(&padded));
    let root = compute_merkle_root(&hs);
    for i in 0..3 {
        assert!(verify_proof(&root, &hs[i], &generate_proof(&hs, i)));
    }
}

// ── transactions ───────────────────────────────────────────────────────────

#[test]
fn test_transfer_sign_verify() {
    let sender = KeyPair::generate();
    let recipient = KeyPair::generate();
    let mut tx = Transaction::new_transfer(1, 0, sender.address(), recipient.address(), 1000, 21000, 1);
    tx.sign(&sender);
    assert!(tx.verify_signature());
}

#[test]
fn test_tampered_tx_fails_verification() {
    let sender = KeyPair::generate();
    let recipient = KeyPair::generate();
    let mut tx = Transaction::new_transfer(1, 0, sender.address(), recipient.address(), 1000, 21000, 1);
    tx.sign(&sender);
    tx.value = 9999;
    assert!(!tx.verify_signature());
}

#[test]
fn test_deploy_tx() {
    let sender = KeyPair::generate();
    let bytecode = vec![0x01, 0x02, 0x03, 0x04];
    let mut tx = Transaction::new_deploy(1, 0, sender.address(), bytecode.clone(), 100_000, 1);
    tx.sign(&sender);
    assert!(tx.verify_signature());
    assert_eq!(tx.kind, TransactionKind::ContractDeploy);
    assert_eq!(tx.data, bytecode);
}

#[test]
fn transaction_test_hash_deterministic() {
    let sender = KeyPair::generate();
    let recipient = KeyPair::generate();
    let tx = Transaction::new_transfer(1, 0, sender.address(), recipient.address(), 100, 21000, 1);
    assert_eq!(tx.hash(), tx.hash());
}

#[test]
fn signable_bytes_layout() {
    let tx = Transaction::new_transfer(1, 2, [3u8; 20], [4u8; 20], 5, 6, 7);
    let b = tx.signable_bytes();
    assert_eq!(b.len(), 8 + 8 + 20 + 20 + 8 + 0 + 8 + 8 + 1 + 32);
    assert_eq!(&b[0..8], &1u64.to_le_bytes());
    assert_eq!(&b[8..16], &2u64.to_le_bytes());
    assert_eq!(b[b.len() - 33], 0);
    assert_eq!(&b[b.len() - 32..], &[0u8; 32]);
    assert_eq!(tx.hash(), hash_sha256(&b));
    // The public key is signed too.
    let mut other = Transaction::new_transfer(1, 2, [3u8; 20], [4u8; 20], 5, 6, 7);
    other.public_key = [9u8; 32];
    assert_ne!(other.signable_bytes(), b);
    assert_eq!(&other.signable_bytes()[b.len() - 32..], &[9u8; 32]);
}

#[test]
fn max_fee_saturates() {
    let tx = Transaction::new_transfer(1, 0, [1u8; 20], [2u8; 20], 0, 21_000, 3);
    assert_eq!(tx.max_fee(), 63_000);
    let big = Transaction::new_transfer(1, 0, [1u8; 20], [2u8; 20], 0, u64::MAX, 2);
    assert_eq!(big.max_fee(), u64::MAX);
}

#[test]
fn signed_by_other_key_fails() {
    let a = KeyPair::generate();
    let b = KeyPair::generate();
    let mut tx = Transaction::new_stake(1, 0, a.address(), 10, 21_000, 1);
    tx.sign(&a);
    tx.public_key = b.public_key();
    assert!(!tx.verify_signature());
}

// ── blocks ─────────────────────────────────────────────────────────────────

#[test]
fn test_genesis_block() {
    let genesis = Block::genesis();
    assert_eq!(genesis.header.height, 0);
    assert_eq!(genesis.header.prev_hash, [0u8; 32]);
    assert!(genesis.transactions.is_empty());
}

#[test]
fn test_block_creation_and_signing() {
    let validator = KeyPair::generate();
    let genesis = Block::genesis();
    let mut block = Block::new(
        &genesis,
        Vec::new(),
        [0u8; 32],
        validator.address(),
        validator.public_key(),
        1000,
        1,
        5000000,
    );
    block.sign(&validator);
    assert_eq!(block.header.height, 1);
    assert!(block.verify_signature());
    assert!(block.verify_tx_root());
}

#[test]
fn test_block_hash_deterministic() {
    let genesis = Block::genesis();
    assert_eq!(genesis.hash(), genesis.hash());
}

#[test]
fn test_block_chain_links() {
    let validator = KeyPair::generate();
    let genesis = Block::genesis();
    let mut b1 = Block::new(
        &genesis,
        Vec::new(),
        [0u8; 32],
        validator.address(),
        validator.public_key(),
        100,
        1,
        5000000,
    );
    b1.sign(&validator);
    let mut b2 = Block::new(&b1, Vec::new(), [0u8; 32], validator.address(), validator.public_key(), 200, 1, 5000000);
    b2.sign(&validator);
    assert_eq!(b2.header.prev_hash, b1.hash());
    assert_eq!(b2.header.height, 2);
}

#[test]
fn block_tx_root_detects_tampering() {
    let kp = KeyPair::generate();
    let mut tx = Transaction::new_transfer(1, 0, kp.address(), [9u8; 20], 10, 21_000, 1);
    tx.sign(&kp);
    let mut block = Block::new(&Block::genesis(), vec![tx], [0u8; 32], kp.address(), kp.public_key(), 5, 1, 0);
    assert!(block.verify_tx_root());
    block.transactions[0].value = 11;
    assert!(!block.verify_tx_root());
}

#[test]
fn block_signature_by_wrong_key_fails() {
    let kp = KeyPair::generate();
    let other = KeyPair::generate();
    let mut block = Block::new(&Block::genesis(), Vec::new(), [0u8; 32], kp.address(), kp.public_key(), 5, 1, 0);
    block.sign(&other);
    assert!(!block.verify_signature());
}

// ── world state ────────────────────────────────────────────────────────────

fn temp_state() -> WorldState {
    WorldState::new()
}

#[test]
fn test_default_account() {
    let state = temp_state();
    let addr = [1u8; 20];
    let account = state.get_account(&addr);
    assert_eq!(account.balance, 0);
    assert_eq!(account.nonce, 0);
}

#[test]
fn test_set_and_get_account() {
    let mut state = temp_state();
    let addr = [2u8; 20];
    let mut account = Account::with_balance(1_000_000);
    account.nonce = 5;
    state.set_account(&addr, account.duplicate());
    let fetched = state.get_account(&addr);
    assert_eq!(fetched.balance, 1_000_000);
    assert_eq!(fetched.nonce, 5);
}

#[test]
fn test_apply_transfer() {
    let mut state = temp_state();
    let sender_kp = KeyPair::generate();
    let recipient_kp = KeyPair::generate();
    state.set_account(&sender_kp.address(), Account::with_balance(1_000_000));
    let mut tx = Transaction::new_transfer(1, 0, sender_kp.address(), recipient_kp.address(), 500, 21_000, 1);
    tx.sign(&sender_kp);
    let result = state.apply_transaction(&tx);
    assert!(result.is_ok());
    let sender_acc = state.get_account(&sender_kp.address());
    let recipient_acc = state.get_account(&recipient_kp.address());
    assert_eq!(recipient_acc.balance, 500);
    assert!(sender_acc.balance < 1_000_000);
    assert_eq!(sender_acc.nonce, 1);
}

#[test]
fn test_insufficient_balance() {
    let mut state = temp_state();
    let sender_kp = KeyPair::generate();
    let recipient_kp = KeyPair::generate();
    state.set_account(&sender_kp.address(), Account::with_balance(100));
    let mut tx = Transaction::new_transfer(1, 0, sender_kp.address(), recipient_kp.address(), 99999, 21_000, 1);
    tx.sign(&sender_kp);
    let result = state.apply_transaction(&tx);
    assert!(matches!(result, Err(StateError::InsufficientBalance { .. })));
}

#[test]
fn test_invalid_nonce() {
    let mut state = temp_state();
    let sender_kp = KeyPair::generate();
    let recipient_kp = KeyPair::generate();
    state.set_account(&sender_kp.address(), Account::with_balance(1_000_000));
    let mut tx = Transaction::new_transfer(1, 999, sender_kp.address(), recipient_kp.address(), 100, 21_000, 1);
    tx.sign(&sender_kp);
    let result = state.apply_transaction(&tx);
    assert!(matches!(result, Err(StateError::InvalidNonce { .. })));
}

#[test]
fn transfer_charges_value_and_base_fee_exactly() {
    let mut state = WorldState::new();
    let kp = KeyPair::generate();
    let to = [8u8; 20];
    state.set_account(&kp.address(), Account::with_balance(1_000_000));
    let mut tx = Transaction::new_transfer(1, 0, kp.address(), to, 500, 21_000, 2);
    tx.sign(&kp);
    assert_eq!(state.apply_transaction(&tx), Ok(21_000));
    assert_eq!(state.get_balance(&kp.address()), 1_000_000 - 500 - 42_000);
    assert_eq!(state.get_balance(&to), 500);
}

#[test]
fn unsigned_transaction_is_rejected_and_state_kept() {
    let mut state = WorldState::new();
    let kp = KeyPair::generate();
    state.set_account(&kp.address(), Account::with_balance(1_000_000));
    let tx = Transaction::new_transfer(1, 0, kp.address(), [8u8; 20], 500, 21_000, 1);
    assert_eq!(state.apply_transaction(&tx), Err(StateError::InvalidSignature));
    assert_eq!(state.get_balance(&kp.address()), 1_000_000);
    assert_eq!(state.get_account(&kp.address()).nonce, 0);
}

#[test]
fn state_error_messages() {
    assert_eq!(StateError::InvalidSignature.to_string(), "invalid transaction signature");
    assert_eq!(
        StateError::InvalidNonce { expected: 0, got: 999 }.to_string(),
        "invalid nonce: expected 0, got 999"
    );
    assert_eq!(
        StateError::InsufficientBalance { required: 120999, available: 100 }.to_string(),
        "insufficient balance: required 120999, available 100"
    );
    assert_eq!(
        StateError::ExecutionError("boom".to_string()).to_string(),
        "contract execution error: boom"
    );
}

#[test]
fn deploy_creates_contract_account() {
    let mut state = WorldState::new();
    let kp = KeyPair::generate();
    let mut acct = Account::with_balance(10_000_000);
    acct.nonce = 1;
    state.set_account(&kp.address(), acct);
    let code = vec![1u8, 2, 3];
    let mut tx = Transaction::new_deploy(1, 1, kp.address(), code.clone(), 100_000, 1);
    tx.sign(&kp);
    assert_eq!(state.apply_transaction(&tx), Ok(53_000 + 3 * 200));
    let mut seed = kp.address().to_vec();
    seed.extend_from_slice(&0u64.to_le_bytes());
    let digest = hash_sha256(&seed);
    let mut contract_addr = [0u8; 20];
    contract_addr.copy_from_slice(&digest[..20]);
    let contract = state.get_account(&contract_addr);
    assert!(contract.is_contract());
    assert_eq!(contract.code, code);
    assert_eq!(contract.code_hash, hash_sha256(&code));
}

#[test]
fn commit_keeps_every_account() {
    let mut state = WorldState::new();
    state.set_account(&[1u8; 20], Account::with_balance(7));
    state.set_account(&[2u8; 20], Account::with_balance(9));
    state.commit();
    assert_eq!(state.get_balance(&[1u8; 20]), 7);
    assert_eq!(state.get_balance(&[2u8; 20]), 9);
    state.set_account(&[1u8; 20], Account::with_balance(3));
    assert_eq!(state.get_balance(&[1u8; 20]), 3);
}

#[test]
fn hex_errors_name_the_first_problem() {
    assert_eq!(address_from_hex("0xzz"), Err(HexError::InvalidHexCharacter { c: 'z', index: 0 }));
    assert_eq!(address_from_hex("0xabc"), Err(HexError::OddLength));
    // The length is checked before the digits.
    assert_eq!(address_from_hex("zzz"), Err(HexError::OddLength));
    let mut text = "ab".repeat(20);
    text.replace_range(7..8, "g");
    assert_eq!(address_from_hex(&text), Err(HexError::InvalidHexCharacter { c: 'g', index: 7 }));
}

#[test]
fn merkle_proof_has_one_node_per_level() {
    let leaves: Vec<[u8; 32]> = (0..5u8).map(|i| hash_sha256(&[i])).collect();
    assert_eq!(generate_proof(&leaves, 0).len(), 3);
    assert_eq!(generate_proof(&leaves, 4).len(), 3);
    assert_eq!(generate_proof(&leaves[..4], 2).len(), 2);
    assert_eq!(generate_proof(&leaves[..1], 0).len(), 0);
}

#[test]
fn signature_never_changes_the_signed_bytes() {
    let kp = KeyPair::generate();
    let mut tx = Transaction::new_transfer(1, 2, kp.address(), [4u8; 20], 5, 6, 7);
    tx.public_key = kp.public_key();
    let before = tx.signable_bytes();
    tx.sign(&kp);
    assert_eq!(tx.signable_bytes(), before);
    let mut other = Transaction::new_transfer(1, 2, kp.address(), [4u8; 20], 5, 6, 8);
    other.public_key = kp.public_key();
    assert_ne!(other.signable_bytes(), before);
}
