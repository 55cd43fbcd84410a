use vstd::prelude::*;
use vstd::arithmetic::div_mod::{
    lemma_div_denominator, lemma_fundamental_div_mod, lemma_fundamental_div_mod_converse,
};
use crate::digest::{hash_pair, spec_hash_pair, Digest};
use crate::errors::ShadowError;

verus! {

/// `2^k`, the leaf capacity of a subtree of height `k`.
pub open spec fn two_pow(k: nat) -> nat
    decreases k,
{
    if k == 0 {
        1nat
    } else {
        2 * two_pow((k - 1) as nat)
    }
}

pub proof fn lemma_two_pow_pos(k: nat)
    ensures
        two_pow(k) >= 1,
    decreases k,
{
    if k > 0 {
        lemma_two_pow_pos((k - 1) as nat);
    }
}

pub proof fn lemma_two_pow_mono(a: nat, b: nat)
    requires
        a <= b,
    ensures
        two_pow(a) <= two_pow(b),
    decreases b,
{
    if a < b {
        lemma_two_pow_mono(a, (b - 1) as nat);
    }
}

pub proof fn lemma_two_pow_20()
    ensures
        two_pow(20) == 0x100000,
{
    reveal_with_fuel(two_pow, 21);
}

/// Root of the all-empty subtree of height `k`: the "zero hash at depth k"
/// used for every unfilled sibling, so an insertion recomputes only one path.
pub open spec fn zero_at(k: nat) -> Digest
    decreases k,
{
    if k == 0 {
        Digest::spec_zero()
    } else {
        spec_hash_pair(zero_at((k - 1) as nat), zero_at((k - 1) as nat))
    }
}

/// Root of a subtree of height `k` whose leftmost slots hold `leaves` in
/// order and whose remaining slots hold the all-zero leaf.
///
/// The accumulator's root is `subtree_root(depth, leaves)`: a pure function
/// of the ordered sequence of inserted leaves and nothing else.
pub open spec fn subtree_root(k: nat, leaves: Seq<Digest>) -> Digest
    decreases k,
{
    if k == 0 {
        if leaves.len() >= 1 {
            leaves[0]
        } else {
            Digest::spec_zero()
        }
    } else {
        let half = two_pow((k - 1) as nat) as int;
        if leaves.len() <= half {
            spec_hash_pair(subtree_root((k - 1) as nat, leaves), zero_at((k - 1) as nat))
        } else {
            spec_hash_pair(
                subtree_root((k - 1) as nat, leaves.take(half)),
                subtree_root((k - 1) as nat, leaves.skip(half)),
            )
        }
    }
}

pub proof fn lemma_subtree_root_empty(k: nat)
    ensures
        subtree_root(k, Seq::<Digest>::empty()) == zero_at(k),
    decreases k,
{
    if k > 0 {
        lemma_two_pow_pos((k - 1) as nat);
        lemma_subtree_root_empty((k - 1) as nat);
    }
}

/// What the cached left-sibling digest at height `k` must hold: whenever the
/// next unfilled node at height `k` is a right child (the quotient is odd),
/// the cache holds the root of the completed left sibling subtree.
pub open spec fn filled_ok(k: nat, leaves: Seq<Digest>, v: Digest) -> bool {
    let p = two_pow(k) as int;
    let q = (leaves.len() as int) / p;
    q % 2 == 1 ==> v == subtree_root(k, leaves.subrange((q - 1) * p, q * p))
}

/// Append-only merkle accumulator of fixed depth: capacity `2^depth` leaves,
/// `O(depth)` work per insertion. Unfilled subtrees contribute precomputed
/// zero-subtree hashes, and a cache of completed left-sibling roots lets each
/// insertion recompute only the path from the new leaf to the root.
pub struct MerkleAccumulator {
    depth: usize,
    leaves: Vec<Digest>,
    filled: Vec<Digest>,
    zeros: Vec<Digest>,
    root: Digest,
}

impl MerkleAccumulator {
    pub closed spec fn spec_depth(self) -> nat {
        self.depth as nat
    }

    /// The ordered sequence of leaves inserted so far.
    pub closed spec fn leaves_seq(self) -> Seq<Digest> {
        self.leaves@
    }

    pub closed spec fn spec_root(self) -> Digest {
        self.root
    }

    pub closed spec fn inv(self) -> bool {
        &&& self.zeros@.len() == self.depth
        &&& forall|j: int| 0 <= j < self.depth ==> #[trigger] self.zeros@[j] == zero_at(j as nat)
        &&& self.filled@.len() == self.depth
        &&& forall|j: int|
            0 <= j < self.depth ==> filled_ok(j as nat, self.leaves@, #[trigger] self.filled@[j])
    }

    /// Well-formedness: the cached root is exactly the merkle root of the
    /// inserted leaf sequence, and the leaf count respects the capacity.
    pub open spec fn wf(self) -> bool {
        &&& self.inv()
        &&& self.spec_depth() <= 20
        &&& self.leaves_seq().len() <= two_pow(self.spec_depth())
        &&& self.spec_root() == subtree_root(self.spec_depth(), self.leaves_seq())
    }

    /// The accumulator root is a deterministic pure function of the ordered
    /// leaf sequence: two accumulators of equal depth holding equal leaf
    /// sequences — however and whenever built — have the identical root.
    pub proof fn lemma_root_deterministic(a: MerkleAccumulator, b: MerkleAccumulator)
        requires
            a.wf(),
            b.wf(),
            a.spec_depth() == b.spec_depth(),
            a.leaves_seq() == b.leaves_seq(),
        ensures
            a.spec_root() == b.spec_root(),
    {
    }

    /// `2^depth`, computed without overflow.
    pub fn capacity_of(depth: usize) -> (r: usize)
        requires
            depth <= 20,
        ensures
            r == two_pow(depth as nat),
    {
        proof {
            lemma_two_pow_20();
        }
        let mut cap: usize = 1;
        let mut k: usize = 0;
        while k < depth
            invariant
                k <= depth <= 20,
                cap == two_pow(k as nat),
            decreases depth - k,
        {
            proof {
                lemma_two_pow_mono((k + 1) as nat, 20);
                lemma_two_pow_20();
            }
            cap = cap * 2;
            k = k + 1;
        }
        cap
    }

    /// An empty accumulator of the given depth; its root is the zero-subtree
    /// hash at that depth.
    pub fn new(depth: usize) -> (r: MerkleAccumulator)
        requires
            depth <= 20,
        ensures
            r.wf(),
            r.spec_depth() == depth,
            r.leaves_seq() == Seq::<Digest>::empty(),
            r.spec_root() == zero_at(depth as nat),
    {
        let mut zeros: Vec<Digest> = Vec::new();
        let mut filled: Vec<Digest> = Vec::new();
        let mut cur = Digest::zero();
        let mut k: usize = 0;
        while k < depth
            invariant
                k <= depth,
                zeros@.len() == k,
                filled@.len() == k,
                forall|j: int| 0 <= j < k ==> #[trigger] zeros@[j] == zero_at(j as nat),
                cur == zero_at(k as nat),
            decreases depth - k,
        {
            zeros.push(cur);
            filled.push(cur);
            cur = hash_pair(cur, cur);
            k = k + 1;
        }
        let r = MerkleAccumulator { depth, leaves: Vec::new(), filled, zeros, root: cur };
        proof {
            lemma_subtree_root_empty(depth as nat);
            assert forall|j: int| 0 <= j < depth implies filled_ok(
                j as nat,
                r.leaves@,
                #[trigger] r.filled@[j],
            ) by {
                lemma_two_pow_pos(j as nat);
                let p = two_pow(j as nat) as int;
                lemma_fundamental_div_mod_converse(0, p, 0, 0);
            }
        }
        r
    }

    pub fn depth(&self) -> (r: usize)
        ensures
            r == self.spec_depth(),
    {
        self.depth
    }

    pub fn num_leaves(&self) -> (r: usize)
        ensures
            r == self.leaves_seq().len(),
    {
        self.leaves.len()
    }

    pub fn current_root(&self) -> (r: Digest)
        ensures
            r == self.spec_root(),
    {
        self.root
    }

    /// Whether `d` was already inserted as a leaf: deposits use this to
    /// reject a reused commitment.
    pub fn contains_leaf(&self, d: Digest) -> (r: bool)
        ensures
            r == self.leaves_seq().contains(d),
    {
        let n = self.leaves.len();
        let mut i: usize = 0;
        while i < n
            invariant
                i <= n,
                n == self.leaves@.len(),
                forall|j: int| 0 <= j < i ==> self.leaves@[j] != d,
            decreases n - i,
        {
            if self.leaves[i] == d {
                assert(self.leaves@[i as int] == d);
                return true;
            }
            i = i + 1;
        }
        false
    }

    /// Appends `leaf` at the next free index and recomputes the path from it
    /// to the root; fails with `PoolFull` — leaving the accumulator unchanged
    /// — exactly when all `2^depth` slots are taken. On success returns the
    /// assigned leaf index and the new root.
    pub fn insert(&mut self, leaf: Digest) -> (r: Result<(u32, Digest), ShadowError>)
        requires
            old(self).wf(),
        ensures
            final(self).wf(),
            final(self).spec_depth() == old(self).spec_depth(),
            r is Err <==> old(self).leaves_seq().len() == two_pow(old(self).spec_depth()),
            r matches Err(e) ==> e == ShadowError::PoolFull && *final(self) == *old(self),
            r is Ok ==> final(self).leaves_seq() == old(self).leaves_seq().push(leaf),
            r matches Ok(p) ==> p.0 as int == old(self).leaves_seq().len() && p.1 == final(self).spec_root(),
    {
        let n = self.leaves.len();
        let cap = Self::capacity_of(self.depth);
        if n == cap {
            return Err(ShadowError::PoolFull);
        }
        self.leaves.push(leaf);

        let ghost l_old = old(self).leaves@;
        let ghost l_new = self.leaves@;
        let ghost nn: int = l_old.len() as int;
        let ghost d: nat = self.depth as nat;

        let mut cur = leaf;
        let mut idx: usize = n;
        let mut k: usize = 0;

        proof {
            assert(two_pow(0) == 1);
            lemma_fundamental_div_mod_converse(nn, 1, nn, 0);
            assert(l_new.subrange(nn, nn + 1)[0] == l_new[nn]);
            assert(cur == subtree_root(0, l_new.subrange(nn * 1, nn + 1)));
        }

        while k < self.depth
            invariant
                old(self).wf(),
                k <= self.depth,
                self.depth == old(self).depth,
                self.depth <= 20,
                d == self.depth as nat,
                self.zeros@ == old(self).zeros@,
                self.root == old(self).root,
                self.leaves@ == l_new,
                l_old == old(self).leaves@,
                l_new == l_old.push(leaf),
                nn == l_old.len(),
                0 <= nn < two_pow(d),
                self.filled@.len() == self.depth,
                idx as int == nn / (two_pow(k as nat) as int),
                (idx as int) * (two_pow(k as nat) as int) <= nn,
                nn < (idx as int + 1) * (two_pow(k as nat) as int),
                cur == subtree_root(
                    k as nat,
                    l_new.subrange((idx as int) * (two_pow(k as nat) as int), nn + 1),
                ),
                forall|j: int|
                    0 <= j < k ==> filled_ok(j as nat, l_new, #[trigger] self.filled@[j]),
                forall|j: int|
                    k <= j < self.depth ==> #[trigger] self.filled@[j] == old(self).filled@[j],
            decreases self.depth - k,
        {
            let ghost i: int = idx as int;
            let ghost pk: int = two_pow(k as nat) as int;
            let ghost pk1: int = two_pow((k + 1) as nat) as int;
            let ghost lo: int = i * pk;
            proof {
                lemma_two_pow_pos(k as nat);
                assert(pk1 == 2 * pk);
                lemma_fundamental_div_mod(i, 2);
                assert((i + 1) * pk == lo + pk) by (nonlinear_arith)
                    requires
                        lo == i * pk,
                ;
            }
            if idx % 2 == 0 {
                let ghost i2: int = i / 2;
                proof {
                    assert(i == 2 * i2);
                    assert(i2 * pk1 == lo) by (nonlinear_arith)
                        requires
                            pk1 == 2 * pk,
                            i == 2 * i2,
                            lo == i * pk,
                    ;
                    // the new leaf lands in the left half of the level-(k+1) node
                    assert(nn + 1 <= lo + pk);
                }
                self.filled[k] = cur;
                let z = self.zeros[k];
                cur = hash_pair(cur, z);
                proof {
                    let s = l_new.subrange(lo, nn + 1);
                    assert(s.len() <= pk);
                    assert(subtree_root((k + 1) as nat, s) == spec_hash_pair(
                        subtree_root(k as nat, s),
                        zero_at(k as nat),
                    ));
                    // the stored sibling cache entry is correct for the grown sequence
                    if nn + 1 == (i + 1) * pk {
                        lemma_fundamental_div_mod_converse(nn + 1, pk, i + 1, 0);
                        assert((nn + 1) / pk == i + 1);
                    } else {
                        lemma_fundamental_div_mod_converse(nn + 1, pk, i, nn + 1 - lo);
                        assert((nn + 1) / pk == i);
                    }
                    assert forall|j: int|
                        0 <= j < k + 1 implies filled_ok(
                        j as nat,
                        l_new,
                        #[trigger] self.filled@[j],
                    ) by {}
                    // bounds for the next level
                    assert(nn < (i2 + 1) * pk1) by (nonlinear_arith)
                        requires
                            pk1 == 2 * pk,
                            i == 2 * i2,
                            nn < (i + 1) * pk,
                            pk > 0,
                    ;
                    lemma_div_denominator(nn, pk, 2);
                    assert(nn / pk1 == i2);
                }
                idx = idx / 2;
                k = k + 1;
            } else {
                let ghost i2: int = i / 2;
                proof {
                    assert(i == 2 * i2 + 1);
                    assert(i2 * pk1 == (i - 1) * pk) by (nonlinear_arith)
                        requires
                            pk1 == 2 * pk,
                            i == 2 * i2 + 1,
                    ;
                    // the left sibling is complete and its cached root applies
                    assert((i - 1) * pk == lo - pk) by (nonlinear_arith)
                        requires
                            lo == i * pk,
                    ;
                    assert(forall|t: int| 0 <= t < nn ==> l_new[t] == #[trigger] l_old[t]);
                    assert(self.filled@[k as int] == old(self).filled@[k as int]);
                    assert(filled_ok(k as nat, l_old, self.filled@[k as int]));
                    assert(filled_ok(k as nat, l_old, self.filled@[k as int]));
                    assert(self.filled@[k as int] == subtree_root(
                        k as nat,
                        l_old.subrange((i - 1) * pk, i * pk),
                    ));
                    assert(l_new.subrange((i - 1) * pk, i * pk) =~= l_old.subrange(
                        (i - 1) * pk,
                        i * pk,
                    ));
                }
                let f = self.filled[k];
                cur = hash_pair(f, cur);
                proof {
                    let s = l_new.subrange((i - 1) * pk, nn + 1);
                    assert(s.len() > pk);
                    assert(subtree_root((k + 1) as nat, s) == spec_hash_pair(
                        subtree_root(k as nat, s.take(pk)),
                        subtree_root(k as nat, s.skip(pk)),
                    ));
                    assert(s.take(pk) =~= l_new.subrange((i - 1) * pk, i * pk));
                    assert(s.skip(pk) =~= l_new.subrange(lo, nn + 1));
                    // the untouched cache entry still satisfies its obligation
                    if nn + 1 == (i + 1) * pk {
                        lemma_fundamental_div_mod_converse(nn + 1, pk, i + 1, 0);
                    } else {
                        lemma_fundamental_div_mod_converse(nn + 1, pk, i, nn + 1 - lo);
                    }
                    assert forall|j: int|
                        0 <= j < k + 1 implies filled_ok(
                        j as nat,
                        l_new,
                        #[trigger] self.filled@[j],
                    ) by {}
                    // bounds for the next level
                    assert(nn < (i2 + 1) * pk1) by (nonlinear_arith)
                        requires
                            pk1 == 2 * pk,
                            i == 2 * i2 + 1,
                            nn < (i + 1) * pk,
                            pk > 0,
                    ;
                    assert(i2 * pk1 <= nn) by (nonlinear_arith)
                        requires
                            pk1 == 2 * pk,
                            i == 2 * i2 + 1,
                            i * pk <= nn,
                            pk > 0,
                    ;
                    lemma_div_denominator(nn, pk, 2);
                    assert(nn / pk1 == i2);
                }
                idx = idx / 2;
                k = k + 1;
            }
        }

        proof {
            lemma_two_pow_pos(d);
            lemma_fundamental_div_mod_converse(nn, two_pow(d) as int, 0, nn);
            assert(idx as int == 0);
            assert(l_new.subrange(0, nn + 1) =~= l_new);
            lemma_two_pow_mono(d, 20);
            lemma_two_pow_20();
        }
        self.root = cur;
        Ok((n as u32, self.root))
    }
}

} // verus!
