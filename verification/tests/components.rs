use shadow_pool::digest::{hash_pair, Digest};
use shadow_pool::errors::ShadowError;
use shadow_pool::history::RootHistory;
use shadow_pool::merkle::MerkleAccumulator;
use shadow_pool::nullifier::NullifierSet;

fn d(x: u64) -> Digest {
    Digest::new(x, x + 1, x + 2, x + 3)
}

#[test]
fn hash_pair_is_deterministic_and_order_sensitive() {
    let a = d(1);
    let b = d(2);
    assert_eq!(hash_pair(a, b), hash_pair(a, b));
    assert_ne!(hash_pair(a, b), hash_pair(b, a));
    assert_ne!(hash_pair(a, b), a);
    assert_ne!(hash_pair(a, b), Digest::zero());
}

#[test]
fn zero_digest_is_all_zero_limbs() {
    let z = Digest::zero();
    assert_eq!(z, Digest::new(0, 0, 0, 0));
}

#[test]
fn empty_accumulators_of_equal_depth_share_a_root() {
    let a = MerkleAccumulator::new(4);
    let b = MerkleAccumulator::new(4);
    let c = MerkleAccumulator::new(5);
    assert_eq!(a.current_root(), b.current_root());
    assert_ne!(a.current_root(), c.current_root());
    assert_eq!(a.num_leaves(), 0);
}

#[test]
fn insert_assigns_indexes_and_changes_the_root() {
    let mut acc = MerkleAccumulator::new(3);
    let mut last_root = acc.current_root();
    for i in 0..8u64 {
        let (index, root) = acc.insert(d(10 + i)).unwrap();
        assert_eq!(index, i as u32);
        assert_ne!(root, last_root);
        assert_eq!(root, acc.current_root());
        last_root = root;
    }
    assert_eq!(acc.insert(d(99)), Err(ShadowError::PoolFull));
    assert_eq!(acc.num_leaves(), 8);
}

#[test]
fn same_leaf_sequence_gives_same_root_on_rebuild() {
    let leaves = [d(5), d(6), d(7)];
    let mut a = MerkleAccumulator::new(6);
    for l in leaves.iter() {
        a.insert(*l).unwrap();
    }
    let mut b = MerkleAccumulator::new(6);
    for l in leaves.iter() {
        b.insert(*l).unwrap();
    }
    assert_eq!(a.current_root(), b.current_root());

    // swapping two leaves moves the root
    let mut c = MerkleAccumulator::new(6);
    c.insert(d(6)).unwrap();
    c.insert(d(5)).unwrap();
    c.insert(d(7)).unwrap();
    assert_ne!(a.current_root(), c.current_root());
}

#[test]
fn contains_leaf_finds_only_inserted_leaves() {
    let mut acc = MerkleAccumulator::new(4);
    acc.insert(d(1)).unwrap();
    acc.insert(d(2)).unwrap();
    assert!(acc.contains_leaf(d(1)));
    assert!(acc.contains_leaf(d(2)));
    assert!(!acc.contains_leaf(d(3)));
}

#[test]
fn capacity_is_two_to_the_depth() {
    assert_eq!(MerkleAccumulator::capacity_of(0), 1);
    assert_eq!(MerkleAccumulator::capacity_of(1), 2);
    assert_eq!(MerkleAccumulator::capacity_of(10), 1024);
    assert_eq!(MerkleAccumulator::capacity_of(20), 1_048_576);
}

#[test]
fn history_accepts_the_last_window_roots() {
    let mut h = RootHistory::new(2);
    assert!(!h.contains(d(1)));
    h.push(d(1));
    assert!(h.contains(d(1)));
    h.push(d(2));
    assert!(h.contains(d(1)) && h.contains(d(2)));
    h.push(d(3));
    assert!(!h.contains(d(1)));
    assert!(h.contains(d(2)) && h.contains(d(3)));
    assert!(!h.contains(d(4)));
}

#[test]
fn history_window_of_one_keeps_only_the_newest() {
    let mut h = RootHistory::new(1);
    h.push(d(1));
    h.push(d(2));
    assert!(!h.contains(d(1)));
    assert!(h.contains(d(2)));
}

#[test]
fn nullifier_set_marks_each_hash_at_most_once() {
    let mut set = NullifierSet::new();
    assert!(!set.is_spent(d(7)));
    assert_eq!(set.mark_spent(d(7)), Ok(()));
    assert!(set.is_spent(d(7)));
    assert_eq!(set.mark_spent(d(7)), Err(ShadowError::NullifierAlreadyUsed));
    assert!(set.is_spent(d(7)));
    assert!(!set.is_spent(d(8)));
    assert_eq!(set.mark_spent(d(8)), Ok(()));
    assert!(set.is_spent(d(7)) && set.is_spent(d(8)));
}
