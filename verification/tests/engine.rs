use shadow_pool::digest::Digest;
use shadow_pool::errors::ShadowError;
use shadow_pool::pool::{check_deposit, compute_fee, deposit, initialize, verify_proof, withdraw};

fn d(x: u64) -> Digest {
    Digest::new(x, x ^ 0xabcd, x.wrapping_mul(3), x ^ 0x1111_2222_3333_4444)
}

fn valid_proof() -> (Vec<u8>, Vec<u8>, Vec<u8>) {
    (vec![1u8; 64], vec![2u8; 128], vec![3u8; 64])
}

#[test]
fn fee_is_exact_at_thirty_bps() {
    let fee = compute_fee(1_000_000_000, 30);
    assert_eq!(fee, 3_000_000);
    assert_eq!(1_000_000_000 - fee, 997_000_000);
}

#[test]
fn fee_is_zero_at_zero_bps() {
    assert_eq!(compute_fee(1_000_000_000, 0), 0);
    assert_eq!(compute_fee(u64::MAX, 0), 0);
}

#[test]
fn fee_takes_everything_at_ten_thousand_bps() {
    assert_eq!(compute_fee(500_000_000, 10000), 500_000_000);
}

#[test]
fn fee_rounds_down() {
    // 999 * 30 / 10000 = 2.997 -> 2
    assert_eq!(compute_fee(999, 30), 2);
    assert_eq!(compute_fee(1, 30), 0);
}

#[test]
fn initialize_sets_configuration_and_empty_counters() {
    let authority = d(7);
    let pool = initialize(authority, 1_000_000_000, 30, 20, 30);
    assert_eq!(pool.authority, authority);
    assert_eq!(pool.fee_recipient, authority);
    assert_eq!(pool.denomination, 1_000_000_000);
    assert_eq!(pool.fee_bps, 30);
    assert_eq!(pool.current_index, 0);
    assert_eq!(pool.total_deposited, 0);
    assert_eq!(pool.total_withdrawn, 0);
    assert!(pool.enabled);
    // the initial (empty-tree) root is accepted from the start
    assert!(pool.is_root_accepted(pool.merkle_root));
}

#[test]
fn deposit_assigns_sequential_indexes_and_keeps_books_balanced() {
    let mut pool = initialize(d(1), 250_000, 30, 8, 4);
    for i in 0..5u64 {
        let ev = deposit(&mut pool, d(100 + i), 1_700_000_000).unwrap();
        assert_eq!(ev.leaf_index, i as u32);
        assert_eq!(ev.commitment, d(100 + i));
        assert_eq!(ev.timestamp, 1_700_000_000);
        assert_eq!(pool.current_index, (i + 1) as u32);
        assert_eq!(pool.total_deposited, 250_000 * (i + 1));
    }
}

#[test]
fn deposit_rejects_duplicate_commitment() {
    let mut pool = initialize(d(1), 250_000, 30, 8, 4);
    deposit(&mut pool, d(42), 0).unwrap();
    let before = pool.current_index;
    assert_eq!(deposit(&mut pool, d(42), 1), Err(ShadowError::DuplicateCommitment));
    assert_eq!(pool.current_index, before);
    assert_eq!(check_deposit(&pool, d(42)), Err(ShadowError::DuplicateCommitment));
}

#[test]
fn pool_at_capacity_rejects_with_pool_full() {
    // depth 1: capacity 2
    let mut pool = initialize(d(1), 9_000, 0, 1, 4);
    deposit(&mut pool, d(10), 0).unwrap();
    deposit(&mut pool, d(11), 0).unwrap();
    assert_eq!(deposit(&mut pool, d(12), 0), Err(ShadowError::PoolFull));
    assert_eq!(check_deposit(&pool, d(12)), Err(ShadowError::PoolFull));
    assert_eq!(pool.current_index, 2);
    assert_eq!(pool.total_deposited, 18_000);
}

#[test]
fn disabled_pool_rejects_deposit_and_withdrawal() {
    let mut pool = initialize(d(1), 250_000, 30, 8, 4);
    deposit(&mut pool, d(5), 0).unwrap();
    let root = pool.merkle_root;
    pool.enabled = false;
    assert_eq!(deposit(&mut pool, d(6), 0), Err(ShadowError::PoolInactive));
    let (pa, pb, pc) = valid_proof();
    let r = withdraw(&mut pool, d(900), root, d(2), &pa, &pb, &pc, 0);
    assert_eq!(r, Err(ShadowError::PoolInactive));
}

#[test]
fn deposit_counter_overflow_is_rejected() {
    let mut pool = initialize(d(1), u64::MAX, 0, 2, 4);
    deposit(&mut pool, d(21), 0).unwrap();
    assert_eq!(pool.total_deposited, u64::MAX);
    assert_eq!(deposit(&mut pool, d(22), 0), Err(ShadowError::ArithmeticOverflow));
    assert_eq!(pool.total_deposited, u64::MAX);
    assert_eq!(pool.current_index, 1);
}

#[test]
fn withdraw_pays_exact_fee_split_and_marks_nullifier() {
    let mut pool = initialize(d(1), 1_000_000_000, 30, 8, 4);
    deposit(&mut pool, d(50), 0).unwrap();
    let root = pool.merkle_root;
    let (pa, pb, pc) = valid_proof();
    let n1 = d(777);
    assert!(!pool.is_nullifier_spent(n1));
    let out = withdraw(&mut pool, n1, root, d(9), &pa, &pb, &pc, 123).unwrap();
    assert_eq!(out.fee, 3_000_000);
    assert_eq!(out.payout, 997_000_000);
    assert_eq!(out.event.amount, 997_000_000);
    assert_eq!(out.event.nullifier_hash, n1);
    assert_eq!(out.event.recipient, d(9));
    assert_eq!(out.event.timestamp, 123);
    assert_eq!(pool.total_withdrawn, 1_000_000_000);
    assert!(pool.is_nullifier_spent(n1));
}

#[test]
fn second_withdrawal_of_same_nullifier_fails_already_spent() {
    let mut pool = initialize(d(1), 1_000_000_000, 30, 8, 4);
    deposit(&mut pool, d(50), 0).unwrap();
    let root = pool.merkle_root;
    let (pa, pb, pc) = valid_proof();
    let n1 = d(777);
    withdraw(&mut pool, n1, root, d(9), &pa, &pb, &pc, 0).unwrap();
    // a second attempt with the same nullifier hash and a valid proof:
    // exactly one attempt succeeds, every later one observes the mark
    let before_withdrawn = pool.total_withdrawn;
    let r = withdraw(&mut pool, n1, root, d(10), &pa, &pb, &pc, 1);
    assert_eq!(r, Err(ShadowError::NullifierAlreadyUsed));
    assert_eq!(pool.total_withdrawn, before_withdrawn);
}

#[test]
fn unknown_root_fails_invalid_root_even_with_valid_proof() {
    let mut pool = initialize(d(1), 1_000_000_000, 30, 8, 4);
    deposit(&mut pool, d(50), 0).unwrap();
    let (pa, pb, pc) = valid_proof();
    let bogus_root = d(31337);
    let r = withdraw(&mut pool, d(777), bogus_root, d(9), &pa, &pb, &pc, 0);
    assert_eq!(r, Err(ShadowError::InvalidMerkleRoot));
}

#[test]
fn stale_root_within_window_is_still_accepted() {
    let mut pool = initialize(d(1), 1_000_000_000, 0, 8, 4);
    deposit(&mut pool, d(1000), 0).unwrap();
    let r1 = pool.merkle_root;
    deposit(&mut pool, d(1001), 0).unwrap();
    deposit(&mut pool, d(1002), 0).unwrap();
    assert!(pool.is_root_accepted(r1));
    let (pa, pb, pc) = valid_proof();
    let out = withdraw(&mut pool, d(2000), r1, d(9), &pa, &pb, &pc, 0).unwrap();
    assert_eq!(out.payout, 1_000_000_000);
}

#[test]
fn root_evicted_from_window_is_rejected() {
    // window 1: only the newest root stays accepted
    let mut pool = initialize(d(1), 1_000_000_000, 0, 8, 1);
    deposit(&mut pool, d(1000), 0).unwrap();
    let r1 = pool.merkle_root;
    deposit(&mut pool, d(1001), 0).unwrap();
    assert!(!pool.is_root_accepted(r1));
    assert!(pool.is_root_accepted(pool.merkle_root));
    let (pa, pb, pc) = valid_proof();
    let r = withdraw(&mut pool, d(2000), r1, d(9), &pa, &pb, &pc, 0);
    assert_eq!(r, Err(ShadowError::InvalidMerkleRoot));
}

#[test]
fn all_zero_proof_is_rejected() {
    let mut pool = initialize(d(1), 1_000_000_000, 30, 8, 4);
    deposit(&mut pool, d(50), 0).unwrap();
    let root = pool.merkle_root;
    let pa = vec![0u8; 64];
    let pb = vec![2u8; 128];
    let pc = vec![3u8; 64];
    let r = withdraw(&mut pool, d(777), root, d(9), &pa, &pb, &pc, 0);
    assert_eq!(r, Err(ShadowError::InvalidProof));
}

#[test]
fn verify_proof_requires_nonzero_byte_in_every_segment() {
    assert!(verify_proof(&vec![0, 0, 1], &vec![9], &vec![0, 4]));
    assert!(!verify_proof(&vec![0, 0, 0], &vec![9], &vec![0, 4]));
    assert!(!verify_proof(&vec![1], &vec![0], &vec![1]));
    assert!(!verify_proof(&vec![1], &vec![1], &vec![]));
}

#[test]
fn withdraw_counter_overflow_is_rejected() {
    let mut pool = initialize(d(1), u64::MAX, 0, 2, 4);
    deposit(&mut pool, d(21), 0).unwrap();
    let root = pool.merkle_root;
    let (pa, pb, pc) = valid_proof();
    withdraw(&mut pool, d(700), root, d(9), &pa, &pb, &pc, 0).unwrap();
    assert_eq!(pool.total_withdrawn, u64::MAX);
    let r = withdraw(&mut pool, d(701), root, d(9), &pa, &pb, &pc, 0);
    assert_eq!(r, Err(ShadowError::ArithmeticOverflow));
    assert!(!pool.is_nullifier_spent(d(701)));
}

#[test]
fn same_deposit_sequence_reproduces_identical_root() {
    let commitments = [d(3), d(1), d(4), d(15), d(92)];
    let mut a = initialize(d(1), 250_000, 30, 8, 4);
    let mut b = initialize(d(2), 9_999, 0, 8, 16);
    for c in commitments.iter() {
        deposit(&mut a, *c, 10).unwrap();
        deposit(&mut b, *c, 99).unwrap();
        assert_eq!(a.merkle_root, b.merkle_root);
    }
    // a different order gives a different accumulator state
    let mut c_pool = initialize(d(3), 250_000, 30, 8, 4);
    deposit(&mut c_pool, d(1), 0).unwrap();
    deposit(&mut c_pool, d(3), 0).unwrap();
    assert_ne!(c_pool.current_index, 0);
}

#[test]
fn end_to_end_scenario() {
    let authority = d(1);
    let mut pool = initialize(authority, 500_000_000, 30, 20, 30);

    let c1 = d(101);
    let ev1 = deposit(&mut pool, c1, 1_700_000_000).unwrap();
    assert_eq!(ev1.leaf_index, 0);
    let r1 = pool.merkle_root;

    let c2 = d(102);
    let ev2 = deposit(&mut pool, c2, 1_700_000_060).unwrap();
    assert_eq!(ev2.leaf_index, 1);
    let r2 = pool.merkle_root;
    assert_ne!(r1, r2);
    assert_eq!(pool.total_deposited, 1_000_000_000);

    // withdraw against r1, still within the history window
    let (pa, pb, pc) = valid_proof();
    let n1 = d(901);
    let recipient = d(55);
    let out = withdraw(&mut pool, n1, r1, recipient, &pa, &pb, &pc, 1_700_000_120).unwrap();
    assert_eq!(out.payout, 498_500_000);
    assert_eq!(out.fee, 1_500_000);
    assert_eq!(out.event.recipient, recipient);
    assert_eq!(pool.total_withdrawn, 500_000_000);

    // repeating the same nullifier hash fails, against either root
    let again = withdraw(&mut pool, n1, r2, recipient, &pa, &pb, &pc, 1_700_000_180);
    assert_eq!(again, Err(ShadowError::NullifierAlreadyUsed));
    assert_eq!(pool.total_withdrawn, 500_000_000);
}
