use thunder::abft::AbftConsensus;
use thunder::consensus_types::{Event, Validator};
use thunder::crypto::{hash_sha256, KeyPair};
use thunder::dag::{Dag, DagError};
use thunder::pos::{StakeError, ValidatorSet};

type Hash = [u8; 32];
type Address = [u8; 20];

fn make_event(creator: Address, self_parent: Hash, other_parent: Hash, ts: u64) -> Event {
    let mut ev = Event::new(creator, self_parent, other_parent, vec![], ts);
    ev.hash = hash_sha256(&ev.signable_bytes());
    ev
}

fn make_signed_event(kp: &KeyPair, self_parent: Hash, other_parent: Hash, payload: Vec<Hash>, ts: u64) -> Event {
    let mut ev = Event::new(kp.address(), self_parent, other_parent, payload, ts);
    ev.hash = hash_sha256(&ev.signable_bytes());
    ev.signature = kp.sign(&ev.hash);
    ev
}

// ── DAG ────────────────────────────────────────────────────────────────────

#[test]
fn test_insert_and_get() {
    let mut dag = Dag::new();
    let kp = KeyPair::generate();
    let ev = make_event(kp.address(), [0u8; 32], [0u8; 32], 1);
    let hash = ev.hash;
    dag.insert(ev).unwrap();
    assert!(dag.get(&hash).is_some());
    assert_eq!(dag.len(), 1);
}

#[test]
fn test_duplicate_insert_fails() {
    let mut dag = Dag::new();
    let kp = KeyPair::generate();
    let ev = make_event(kp.address(), [0u8; 32], [0u8; 32], 1);
    dag.insert(ev.clone()).unwrap();
    assert!(matches!(dag.insert(ev), Err(DagError::DuplicateEvent)));
}

#[test]
fn test_ancestry() {
    let mut dag = Dag::new();
    let kp = KeyPair::generate();
    let ev1 = make_event(kp.address(), [0u8; 32], [0u8; 32], 1);
    let h1 = ev1.hash;
    dag.insert(ev1).unwrap();
    let ev2 = make_event(kp.address(), h1, [0u8; 32], 2);
    let h2 = ev2.hash;
    dag.insert(ev2).unwrap();
    assert!(dag.is_ancestor(&h1, &h2));
    assert!(!dag.is_ancestor(&h2, &h1));
}

#[test]
fn test_tips() {
    let mut dag = Dag::new();
    let kp = KeyPair::generate();
    let ev1 = make_event(kp.address(), [0u8; 32], [0u8; 32], 1);
    let h1 = ev1.hash;
    dag.insert(ev1).unwrap();
    assert!(dag.tips().contains(&h1));
    let ev2 = make_event(kp.address(), h1, [0u8; 32], 2);
    let h2 = ev2.hash;
    dag.insert(ev2).unwrap();
    assert!(!dag.tips().contains(&h1));
    assert!(dag.tips().contains(&h2));
}

#[test]
fn test_creator_events() {
    let mut dag = Dag::new();
    let kp = KeyPair::generate();
    let ev1 = make_event(kp.address(), [0u8; 32], [0u8; 32], 1);
    let h1 = ev1.hash;
    dag.insert(ev1).unwrap();
    let ev2 = make_event(kp.address(), h1, [0u8; 32], 2);
    dag.insert(ev2).unwrap();
    assert_eq!(dag.events_by_creator(&kp.address()).len(), 2);
}

#[test]
fn missing_parents_are_rejected() {
    let mut dag = Dag::new();
    let ev = make_event([1u8; 20], [5u8; 32], [0u8; 32], 1);
    assert!(matches!(dag.insert(ev), Err(DagError::MissingSelfParent)));
    let ev = make_event([1u8; 20], [0u8; 32], [6u8; 32], 1);
    assert!(matches!(dag.insert(ev), Err(DagError::MissingOtherParent)));
    assert!(dag.is_empty());
}

#[test]
fn ancestry_through_other_parent_and_latest_event() {
    let mut dag = Dag::new();
    let a = make_event([1u8; 20], [0u8; 32], [0u8; 32], 1);
    let b = make_event([2u8; 20], [0u8; 32], a.hash, 2);
    let c = make_event([1u8; 20], a.hash, b.hash, 3);
    let (ha, hb, hc) = (a.hash, b.hash, c.hash);
    dag.insert(a).unwrap();
    dag.insert(b).unwrap();
    dag.insert(c).unwrap();
    assert!(dag.is_ancestor(&ha, &hc));
    assert!(dag.is_ancestor(&hb, &hc));
    assert!(dag.is_ancestor(&hc, &hc));
    assert!(!dag.is_ancestor(&hc, &hb));
    assert_eq!(dag.latest_event(&[1u8; 20]).unwrap().hash, hc);
    assert!(dag.latest_event(&[3u8; 20]).is_none());
    let tips = dag.tips();
    assert_eq!(tips, vec![hc]);
}

#[test]
fn events_by_time_sorted_by_timestamp() {
    let mut dag = Dag::new();
    let a = make_event([1u8; 20], [0u8; 32], [0u8; 32], 5);
    let b = make_event([2u8; 20], [0u8; 32], [0u8; 32], 3);
    let c = make_event([3u8; 20], [0u8; 32], [0u8; 32], 5);
    let hs = [a.hash, b.hash, c.hash];
    dag.insert(a).unwrap();
    dag.insert(b).unwrap();
    dag.insert(c).unwrap();
    let order: Vec<Hash> = dag.events_by_time().iter().map(|e| e.hash).collect();
    assert_eq!(order, vec![hs[1], hs[0], hs[2]]);
    let inserted: Vec<Hash> = dag.all_events().iter().map(|e| e.hash).collect();
    assert_eq!(inserted, vec![hs[0], hs[1], hs[2]]);
}

#[test]
fn strongly_sees_counts_distinct_creators() {
    let mut dag = Dag::new();
    let a = make_event([1u8; 20], [0u8; 32], [0u8; 32], 1);
    let b = make_event([2u8; 20], [0u8; 32], a.hash, 2);
    let c = make_event([3u8; 20], [0u8; 32], b.hash, 3);
    let (ha, hc) = (a.hash, c.hash);
    dag.insert(a).unwrap();
    dag.insert(b).unwrap();
    dag.insert(c).unwrap();
    let vals = [[1u8; 20], [2u8; 20], [3u8; 20]];
    assert!(dag.strongly_sees(&hc, &ha, &vals, 3));
    assert!(!dag.strongly_sees(&ha, &hc, &vals, 1));
    assert!(!dag.strongly_sees(&hc, &ha, &[], 0));
}

// ── proof of stake ─────────────────────────────────────────────────────────

fn make_validator_set() -> (ValidatorSet, Vec<KeyPair>) {
    let mut vs = ValidatorSet::new(100);
    let mut kps = Vec::new();
    for stake in [1000u64, 2000, 3000] {
        let kp = KeyPair::generate();
        vs.register(kp.address(), kp.public_key(), stake).unwrap();
        kps.push(kp);
    }
    (vs, kps)
}

#[test]
fn test_register_and_count() {
    let (vs, _) = make_validator_set();
    assert_eq!(vs.count(), 3);
    assert_eq!(vs.active_count(), 3);
    assert_eq!(vs.total_stake(), 6000);
}

#[test]
fn test_below_minimum_stake() {
    let mut vs = ValidatorSet::new(100);
    let kp = KeyPair::generate();
    let result = vs.register(kp.address(), kp.public_key(), 50);
    assert!(matches!(result, Err(StakeError::BelowMinimumStake { .. })));
}

#[test]
fn test_select_proposer_deterministic() {
    let (vs, _) = make_validator_set();
    let seed = [42u8; 32];
    let p1 = vs.select_proposer(&seed);
    let p2 = vs.select_proposer(&seed);
    assert_eq!(p1, p2);
}

#[test]
fn test_slashing() {
    let (mut vs, kps) = make_validator_set();
    let target = kps[0].address();
    let stake_before = vs.get(&target).unwrap().stake;
    let slashed = vs.slash(&target, 500).unwrap();
    assert_eq!(slashed, 500);
    assert_eq!(vs.get(&target).unwrap().stake, stake_before - 500);
}

#[test]
fn test_slash_deactivates_below_minimum() {
    let (mut vs, kps) = make_validator_set();
    let target = kps[0].address();
    vs.slash(&target, 950).unwrap();
    assert!(!vs.get(&target).unwrap().is_active);
}

#[test]
fn test_unregister() {
    let (mut vs, kps) = make_validator_set();
    let returned = vs.unregister(&kps[1].address()).unwrap();
    assert_eq!(returned, 2000);
    assert_eq!(vs.count(), 2);
}

#[test]
fn test_supermajority() {
    let (vs, _) = make_validator_set();
    assert_eq!(vs.supermajority(), 4001);
}

#[test]
fn stake_errors_and_totals() {
    let (mut vs, kps) = make_validator_set();
    assert!(matches!(vs.register(kps[0].address(), kps[0].public_key(), 500), Err(StakeError::AlreadyRegistered)));
    assert!(matches!(vs.unregister(&[9u8; 20]), Err(StakeError::NotRegistered)));
    assert!(matches!(vs.add_stake(&[9u8; 20], 1), Err(StakeError::NotRegistered)));
    vs.add_stake(&kps[0].address(), 10).unwrap();
    assert_eq!(vs.total_stake(), 6010);
    vs.unregister(&kps[2].address()).unwrap();
    assert_eq!(vs.total_stake(), 3010);
}

#[test]
fn active_validators_by_stake_descending() {
    let (vs, kps) = make_validator_set();
    let active: Vec<Validator> = vs.active_validators();
    let addrs: Vec<Address> = active.iter().map(|v| v.address).collect();
    assert_eq!(addrs, vec![kps[2].address(), kps[1].address(), kps[0].address()]);
}

#[test]
fn proposer_is_an_active_validator_or_none() {
    let (vs, kps) = make_validator_set();
    let p = vs.select_proposer(&[7u8; 32]).unwrap();
    assert!(kps.iter().any(|k| k.address() == p));
    let empty = ValidatorSet::new(1);
    assert_eq!(empty.select_proposer(&[7u8; 32]), None);
}

// ── aBFT ───────────────────────────────────────────────────────────────────

#[test]
fn test_consensus_creation() {
    let kp1 = KeyPair::generate();
    let kp2 = KeyPair::generate();
    let kp3 = KeyPair::generate();
    let validators = vec![kp1.address(), kp2.address(), kp3.address()];
    let consensus = AbftConsensus::new(validators.clone());
    assert_eq!(consensus.validators.len(), 3);
    assert_eq!(consensus.supermajority, 2);
}

#[test]
fn test_divide_rounds_basic() {
    let kp1 = KeyPair::generate();
    let kp2 = KeyPair::generate();
    let validators = vec![kp1.address(), kp2.address()];
    let mut consensus = AbftConsensus::new(validators);
    let ev1 = make_signed_event(&kp1, [0u8; 32], [0u8; 32], vec![], 1);
    let ev2 = make_signed_event(&kp2, [0u8; 32], [0u8; 32], vec![], 2);
    consensus.add_event(ev1).unwrap();
    consensus.add_event(ev2).unwrap();
    consensus.divide_rounds();
    for ev in consensus.dag.all_events() {
        assert_eq!(ev.round, 1);
        assert!(ev.is_witness);
    }
}

#[test]
fn test_add_event() {
    let kp = KeyPair::generate();
    let validators = vec![kp.address()];
    let mut consensus = AbftConsensus::new(validators);
    let ev = make_signed_event(&kp, [0u8; 32], [0u8; 32], vec![[42u8; 32]], 1);
    consensus.add_event(ev).unwrap();
    assert_eq!(consensus.dag.len(), 1);
}

#[test]
fn supermajority_values() {
    for (n, sm) in [(0usize, 0usize), (1, 1), (2, 2), (3, 2), (4, 3), (5, 4), (6, 4), (7, 5)] {
        let c = AbftConsensus::new(vec![[0u8; 20]; n]);
        assert_eq!(c.supermajority, sm);
    }
}

#[test]
fn single_validator_chain_orders_its_payload() {
    let kp = KeyPair::generate();
    let mut c = AbftConsensus::new(vec![kp.address()]);
    let e1 = make_signed_event(&kp, [0u8; 32], [0u8; 32], vec![[1u8; 32]], 1);
    let e2 = make_signed_event(&kp, e1.hash, [0u8; 32], vec![[2u8; 32]], 2);
    let e3 = make_signed_event(&kp, e2.hash, [0u8; 32], vec![], 3);
    let h1 = e1.hash;
    c.add_event(e1).unwrap();
    c.add_event(e2).unwrap();
    c.add_event(e3).unwrap();
    let out = c.process().expect("an event is ordered");
    assert!(out.ordered_tx_hashes.contains(&[1u8; 32]));
    assert_eq!(c.last_decided_round, out.round_decided);
    let first = c.dag.get(&h1).unwrap();
    assert_eq!(first.round, 1);
    assert!(first.is_witness);
    assert_eq!(first.is_famous, Some(true));
    assert!(first.round_received.is_some());
    // Nothing new afterwards.
    assert!(c.process().is_none());
}

#[test]
fn process_on_empty_dag_is_none() {
    let mut c = AbftConsensus::new(vec![[1u8; 20]]);
    assert!(c.process().is_none());
    assert_eq!(c.last_decided_round, 0);
    assert!(c.find_order().is_empty());
}

#[test]
fn proposer_does_not_depend_on_registration_order() {
    let (a, b, c) = ([3u8; 20], [1u8; 20], [2u8; 20]);
    let mut one = ValidatorSet::new(1000);
    let mut two = ValidatorSet::new(1000);
    for (addr, stake) in [(a, 5000u64), (b, 5000), (c, 9000)] {
        one.register(addr, [0u8; 32], stake).unwrap();
    }
    for (addr, stake) in [(c, 9000u64), (a, 5000), (b, 5000)] {
        two.register(addr, [0u8; 32], stake).unwrap();
    }
    let order_one: Vec<[u8; 20]> = one.active_validators().iter().map(|v| v.address).collect();
    let order_two: Vec<[u8; 20]> = two.active_validators().iter().map(|v| v.address).collect();
    assert_eq!(order_one, vec![c, b, a]);
    assert_eq!(order_one, order_two);
    for s in 0..64u8 {
        let seed = [s; 32];
        assert_eq!(one.select_proposer(&seed), two.select_proposer(&seed));
    }
}

#[test]
fn get_mut_changes_the_event_in_place() {
    let mut dag = Dag::new();
    let e = make_event([1u8; 20], [0u8; 32], [0u8; 32], 1);
    let h = e.hash;
    dag.insert(e).unwrap();
    dag.get_mut(&h).unwrap().round = 4;
    assert_eq!(dag.get(&h).unwrap().round, 4);
    assert!(dag.get_mut(&[9u8; 32]).is_none());
    assert_eq!(dag.len(), 1);
}

#[test]
fn ancestry_is_reachability_along_parent_links() {
    let mut dag = Dag::new();
    let a = KeyPair::generate();
    let b = KeyPair::generate();
    let a1 = make_event(a.address(), [0u8; 32], [0u8; 32], 1);
    let b1 = make_event(b.address(), [0u8; 32], a1.hash, 2);
    let a2 = make_event(a.address(), a1.hash, b1.hash, 3);
    let lone = make_event(b.address(), b1.hash, [0u8; 32], 4);
    let (h_a1, h_b1, h_a2, h_lone) = (a1.hash, b1.hash, a2.hash, lone.hash);
    for e in [a1, b1, a2, lone] {
        dag.insert(e).unwrap();
    }
    // a2 -> b1 -> a1 through other and self links; every event reaches itself.
    assert!(dag.is_ancestor(&h_a1, &h_a2));
    assert!(dag.is_ancestor(&h_b1, &h_a2));
    assert!(dag.is_ancestor(&h_a2, &h_a2));
    assert!(dag.is_ancestor(&h_a1, &h_lone));
    // No path leads back up, nor across to a sibling.
    assert!(!dag.is_ancestor(&h_a2, &h_a1));
    assert!(!dag.is_ancestor(&h_lone, &h_a2));
    assert!(!dag.is_ancestor(&h_a2, &h_lone));
}

#[test]
fn fame_is_decided_once_by_next_round_votes() {
    let kp = KeyPair::generate();
    let mut c = AbftConsensus::new(vec![kp.address()]);
    let e1 = make_signed_event(&kp, [0u8; 32], [0u8; 32], vec![], 1);
    let e2 = make_signed_event(&kp, e1.hash, [0u8; 32], vec![], 2);
    let (h1, h2) = (e1.hash, e2.hash);
    c.add_event(e1).unwrap();
    c.add_event(e2).unwrap();
    c.divide_rounds();
    assert_eq!(c.dag.get(&h2).unwrap().round, 2);
    c.decide_fame();
    // The round-1 witness is strongly seen by the round-2 witness: famous.
    assert_eq!(c.dag.get(&h1).unwrap().is_famous, Some(true));
    // Round 3 has no witness yet, so the round-2 witness stays undecided.
    assert_eq!(c.dag.get(&h2).unwrap().is_famous, None);
    // A second pass changes nothing already decided.
    c.decide_fame();
    assert_eq!(c.dag.get(&h1).unwrap().is_famous, Some(true));
}

#[test]
fn find_order_lists_each_newly_ordered_event_once() {
    let kp = KeyPair::generate();
    let mut c = AbftConsensus::new(vec![kp.address()]);
    let e1 = make_signed_event(&kp, [0u8; 32], [0u8; 32], vec![[1u8; 32]], 1);
    let e2 = make_signed_event(&kp, e1.hash, [0u8; 32], vec![], 2);
    let e3 = make_signed_event(&kp, e2.hash, [0u8; 32], vec![], 3);
    let h1 = e1.hash;
    for e in [e1, e2, e3] {
        c.add_event(e).unwrap();
    }
    c.divide_rounds();
    c.decide_fame();
    let order = c.find_order();
    assert!(order.contains(&h1));
    for i in 0..order.len() {
        for j in (i + 1)..order.len() {
            assert_ne!(order[i], order[j]);
        }
    }
    // Everything it listed is ordered now: a second pass lists nothing.
    assert!(c.find_order().is_empty());
}
