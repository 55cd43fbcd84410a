use vstd::prelude::*;
use crate::digest::{Digest, Identity};
use crate::errors::ShadowError;
use crate::history::RootHistory;
use crate::merkle::{subtree_root, two_pow, zero_at, MerkleAccumulator};
use crate::nullifier::NullifierSet;

verus! {

/// Emitted on every successful deposit: the only channel by which a
/// depositor later locates their own leaf, since no identity link is stored.
#[derive(Clone, Copy, Debug, PartialEq, Eq, Structural)]
pub struct DepositEvent {
    pub commitment: Digest,
    pub leaf_index: u32,
    pub timestamp: i64,
}

/// Emitted on every successful withdrawal.
#[derive(Clone, Copy, Debug, PartialEq, Eq, Structural)]
pub struct WithdrawEvent {
    pub nullifier_hash: Digest,
    pub recipient: Identity,
    pub amount: u64,
    pub timestamp: i64,
}

/// What a successful withdrawal instructs the ledger collaborator to do:
/// `payout` to the recipient and, if nonzero, `fee` to the fee recipient.
/// The nullifier is already marked by then — mark-then-pay makes a double
/// withdrawal impossible even if the payment later fails.
#[derive(Clone, Copy, Debug, PartialEq, Eq, Structural)]
pub struct WithdrawOutcome {
    pub payout: u64,
    pub fee: u64,
    pub event: WithdrawEvent,
}

/// One shielded pool: fixed-denomination configuration, counters, and the
/// accumulator, root window and nullifier set that carry its accounting
/// state. Each public operation is an isolated transaction per pool; the
/// host serializes operations against the same pool.
pub struct PrivacyPool {
    pub authority: Identity,
    pub denomination: u64,
    pub fee_bps: u16,
    pub fee_recipient: Identity,
    pub merkle_root: Digest,
    pub current_index: u32,
    pub total_deposited: u64,
    pub total_withdrawn: u64,
    pub enabled: bool,
    pub tree: MerkleAccumulator,
    pub history: RootHistory,
    pub nullifiers: NullifierSet,
}

impl PrivacyPool {
    /// The ordered sequence of commitments deposited so far.
    pub open spec fn commitments(self) -> Seq<Digest> {
        self.tree.leaves_seq()
    }

    pub open spec fn spec_depth(self) -> nat {
        self.tree.spec_depth()
    }

    pub open spec fn spec_window(self) -> nat {
        self.history.spec_window()
    }

    /// Whether `d` is a spent nullifier hash.
    pub open spec fn spent(self, d: Digest) -> bool {
        self.nullifiers.spec_is_spent(d)
    }

    /// Whether `d` is a currently accepted root.
    pub open spec fn root_accepted(self, d: Digest) -> bool {
        self.history.spec_contains(d)
    }

    /// Every root the pool ever produced, oldest first.
    pub open spec fn roots_pushed(self) -> Seq<Digest> {
        self.history.all_pushed()
    }

    /// Pool invariant: the cached root is the merkle root of the deposited
    /// commitments, the leaf counter matches, the books balance
    /// (`total_deposited == denomination * leaf_count`), and the current
    /// root is always accepted for withdrawal.
    pub open spec fn wf(self) -> bool {
        &&& self.tree.wf()
        &&& self.history.wf()
        &&& self.nullifiers.wf()
        &&& self.fee_bps <= 10000
        &&& self.merkle_root == self.tree.spec_root()
        &&& self.current_index as int == self.commitments().len()
        &&& self.total_deposited as int == self.denomination as int * self.commitments().len()
        &&& self.root_accepted(self.merkle_root)
    }

    /// Leaf capacity of this pool, `2^depth`.
    pub fn capacity(&self) -> (r: usize)
        requires
            self.wf(),
        ensures
            r == two_pow(self.spec_depth()),
    {
        MerkleAccumulator::capacity_of(self.tree.depth())
    }

    /// Whether `d` is one of the currently accepted roots.
    pub fn is_root_accepted(&self, d: Digest) -> (r: bool)
        ensures
            r == self.root_accepted(d),
    {
        self.history.contains(d)
    }

    /// Whether `d` is a spent nullifier hash.
    pub fn is_nullifier_spent(&self, d: Digest) -> (r: bool)
        ensures
            r == self.spent(d),
    {
        self.nullifiers.is_spent(d)
    }
}

/// `floor(denomination * fee_bps / 10000)`: the fee withheld from a
/// withdrawal, in integer arithmetic with no rounding beyond the floor.
pub open spec fn spec_fee(denomination: u64, fee_bps: u16) -> int {
    (denomination as int) * (fee_bps as int) / 10000
}

/// Computes the exact withdrawal fee; the multiply is widened to 128 bits so
/// it cannot overflow, and the result never exceeds the denomination.
pub fn compute_fee(denomination: u64, fee_bps: u16) -> (r: u64)
    requires
        fee_bps <= 10000,
    ensures
        r == spec_fee(denomination, fee_bps),
        r <= denomination,
{
    proof {
        assert((denomination as int) * (fee_bps as int) <= u128::MAX) by (nonlinear_arith)
            requires
                denomination <= 0xffff_ffff_ffff_ffff,
                fee_bps <= 10000,
        ;
        assert(0 <= (denomination as int) * (fee_bps as int) / 10000 <= denomination as int)
            by (nonlinear_arith)
            requires
                0 <= (denomination as int),
                0 <= fee_bps <= 10000,
        ;
    }
    let wide: u128 = (denomination as u128) * (fee_bps as u128);
    let f: u128 = wide / 10000;
    f as u64
}

/// Whether some byte of `s` is nonzero.
pub open spec fn spec_has_nonzero(s: Seq<u8>) -> bool {
    exists|i: int| 0 <= i < s.len() && s[i] != 0
}

fn has_nonzero(v: &Vec<u8>) -> (r: bool)
    ensures
        r == spec_has_nonzero(v@),
{
    let n = v.len();
    let mut i: usize = 0;
    while i < n
        invariant
            i <= n,
            n == v@.len(),
            forall|j: int| 0 <= j < i ==> v@[j] == 0,
        decreases n - i,
    {
        if v[i] != 0 {
            assert(v@[i as int] != 0);
            return true;
        }
        i = i + 1;
    }
    false
}

/// What the proof-verification collaborator accepts.
///
/// This stand-in accepts exactly the proofs whose three segments each hold a
/// nonzero byte; a deployment substitutes a zero-knowledge verifier matching
/// the offline circuit. All accounting contracts treat acceptance as an
/// abstract predicate of the proof bytes, so nothing else changes with it.
pub open spec fn spec_proof_valid(a: Seq<u8>, b: Seq<u8>, c: Seq<u8>) -> bool {
    spec_has_nonzero(a) && spec_has_nonzero(b) && spec_has_nonzero(c)
}

/// Executable form of the proof-acceptance predicate: a pure, side-effect
/// free check of the proof bytes.
pub fn verify_proof(proof_a: &Vec<u8>, proof_b: &Vec<u8>, proof_c: &Vec<u8>) -> (r: bool)
    ensures
        r == spec_proof_valid(proof_a@, proof_b@, proof_c@),
{
    let a = has_nonzero(proof_a);
    let b = has_nonzero(proof_b);
    let c = has_nonzero(proof_c);
    a && b && c
}

/// The first gate a deposit fails, if any, checked in this order: pool
/// enabled, capacity, commitment freshness, counter overflow.
pub open spec fn deposit_err(pool: PrivacyPool, commitment: Digest) -> Option<ShadowError> {
    if !pool.enabled {
        Some(ShadowError::PoolInactive)
    } else if pool.commitments().len() == two_pow(pool.spec_depth()) {
        Some(ShadowError::PoolFull)
    } else if pool.commitments().contains(commitment) {
        Some(ShadowError::DuplicateCommitment)
    } else if pool.total_deposited as int + pool.denomination as int > u64::MAX as int {
        Some(ShadowError::ArithmeticOverflow)
    } else {
        None
    }
}

/// The first gate a withdrawal fails, if any, checked in this order: pool
/// enabled, nullifier freshness, root membership, proof acceptance, counter
/// overflow.
pub open spec fn withdraw_err(
    pool: PrivacyPool,
    nullifier_hash: Digest,
    root: Digest,
    proof_valid: bool,
) -> Option<ShadowError> {
    if !pool.enabled {
        Some(ShadowError::PoolInactive)
    } else if pool.spent(nullifier_hash) {
        Some(ShadowError::NullifierAlreadyUsed)
    } else if !pool.root_accepted(root) {
        Some(ShadowError::InvalidMerkleRoot)
    } else if !proof_valid {
        Some(ShadowError::InvalidProof)
    } else if pool.total_withdrawn as int + pool.denomination as int > u64::MAX as int {
        Some(ShadowError::ArithmeticOverflow)
    } else {
        None
    }
}

/// Creates an enabled pool of the given denomination and fee rate, with an
/// empty accumulator of the given depth and a root window of the given
/// length; the empty tree's root is accepted from the start, and the
/// authority initially receives the fees.
pub fn initialize(
    authority: Identity,
    denomination: u64,
    fee_bps: u16,
    depth: usize,
    window: usize,
) -> (pool: PrivacyPool)
    requires
        fee_bps <= 10000,
        depth <= 20,
        window >= 1,
    ensures
        pool.wf(),
        pool.authority == authority,
        pool.denomination == denomination,
        pool.fee_bps == fee_bps,
        pool.fee_recipient == authority,
        pool.enabled,
        pool.current_index == 0,
        pool.total_deposited == 0,
        pool.total_withdrawn == 0,
        pool.commitments() == Seq::<Digest>::empty(),
        pool.spec_depth() == depth,
        pool.spec_window() == window,
        pool.merkle_root == zero_at(depth as nat),
        pool.roots_pushed() == seq![zero_at(depth as nat)],
        forall|d: Digest| !pool.spent(d),
{
    let tree = MerkleAccumulator::new(depth);
    let root = tree.current_root();
    let mut history = RootHistory::new(window);
    history.push(root);
    let nullifiers = NullifierSet::new();
    let pool = PrivacyPool {
        authority,
        denomination,
        fee_bps,
        fee_recipient: authority,
        merkle_root: root,
        current_index: 0,
        total_deposited: 0,
        total_withdrawn: 0,
        enabled: true,
        tree,
        history,
        nullifiers,
    };
    proof {
        assert(pool.roots_pushed() =~= seq![zero_at(depth as nat)]);
    }
    pool
}

/// Validates a deposit without performing it: the host calls this first,
/// then moves `denomination` into pool custody, then calls `deposit`, so a
/// rejection never costs a transfer.
pub fn check_deposit(pool: &PrivacyPool, commitment: Digest) -> (r: Result<(), ShadowError>)
    requires
        pool.wf(),
    ensures
        r is Ok <==> deposit_err(*pool, commitment) is None,
        r matches Err(e) ==> Some(e) == deposit_err(*pool, commitment),
{
    if !pool.enabled {
        return Err(ShadowError::PoolInactive);
    }
    let cap = pool.capacity();
    if pool.tree.num_leaves() == cap {
        return Err(ShadowError::PoolFull);
    }
    if pool.tree.contains_leaf(commitment) {
        return Err(ShadowError::DuplicateCommitment);
    }
    if pool.total_deposited > u64::MAX - pool.denomination {
        return Err(ShadowError::ArithmeticOverflow);
    }
    Ok(())
}

/// Performs a deposit: the host has already moved `denomination` units into
/// pool custody (after a successful `check_deposit`). Inserts the commitment
/// at the next leaf index, updates the counters, pushes the new root onto
/// the accepted window and returns the deposit event. Any rejection leaves
/// the pool exactly as it was.
pub fn deposit(pool: &mut PrivacyPool, commitment: Digest, timestamp: i64) -> (r: Result<
    DepositEvent,
    ShadowError,
>)
    requires
        old(pool).wf(),
    ensures
        final(pool).wf(),
        r is Err <==> deposit_err(*old(pool), commitment) is Some,
        r matches Err(e) ==> Some(e) == deposit_err(*old(pool), commitment) && *final(pool)
            == *old(pool),
        r matches Ok(ev) ==> ({
            &&& ev.commitment == commitment
            &&& ev.leaf_index as int == old(pool).commitments().len()
            &&& ev.timestamp == timestamp
            &&& final(pool).commitments() == old(pool).commitments().push(commitment)
            &&& final(pool).current_index as int == old(pool).current_index as int + 1
            &&& final(pool).total_deposited as int == old(pool).total_deposited as int + old(pool).denomination as int
            &&& final(pool).merkle_root == subtree_root(
                old(pool).spec_depth(),
                old(pool).commitments().push(commitment),
            )
            &&& final(pool).roots_pushed() == old(pool).roots_pushed().push(
                final(pool).merkle_root,
            )
        }),
        final(pool).authority == old(pool).authority,
        final(pool).denomination == old(pool).denomination,
        final(pool).fee_bps == old(pool).fee_bps,
        final(pool).fee_recipient == old(pool).fee_recipient,
        final(pool).enabled == old(pool).enabled,
        final(pool).total_withdrawn == old(pool).total_withdrawn,
        final(pool).spec_depth() == old(pool).spec_depth(),
        final(pool).spec_window() == old(pool).spec_window(),
        forall|x: Digest| final(pool).spent(x) == old(pool).spent(x),
        final(pool).total_deposited as int == final(pool).denomination as int * final(pool).current_index as int,
{
    if !pool.enabled {
        return Err(ShadowError::PoolInactive);
    }
    let cap = pool.capacity();
    if pool.tree.num_leaves() == cap {
        return Err(ShadowError::PoolFull);
    }
    if pool.tree.contains_leaf(commitment) {
        return Err(ShadowError::DuplicateCommitment);
    }
    if pool.total_deposited > u64::MAX - pool.denomination {
        return Err(ShadowError::ArithmeticOverflow);
    }
    let res = pool.tree.insert(commitment);
    match res {
        Ok((leaf_index, new_root)) => {
            proof {
                crate::merkle::lemma_two_pow_mono(old(pool).spec_depth(), 20);
                crate::merkle::lemma_two_pow_20();
                let n = old(pool).commitments().len() as int;
                let d = old(pool).denomination as int;
                assert(d * n + d == d * (n + 1)) by (nonlinear_arith);
            }
            pool.merkle_root = new_root;
            pool.current_index = pool.current_index + 1;
            pool.total_deposited = pool.total_deposited + pool.denomination;
            pool.history.push(new_root);
            Ok(DepositEvent { commitment, leaf_index, timestamp })
        },
        Err(e) => {
            // unreachable: the capacity gate above already rejected a full pool
            proof {
                assert(false);
            }
            Err(e)
        },
    }
}

/// Performs a withdrawal: checks the gates in order (enabled, nullifier
/// freshness, root membership, proof acceptance, counter overflow), then
/// atomically marks the nullifier spent, computes the exact fee split and
/// returns the amounts the host must pay out — mark-then-pay, so a payment
/// failure can never reopen the nullifier. Any rejection leaves the pool
/// exactly as it was.
pub fn withdraw(
    pool: &mut PrivacyPool,
    nullifier_hash: Digest,
    root: Digest,
    recipient: Identity,
    proof_a: &Vec<u8>,
    proof_b: &Vec<u8>,
    proof_c: &Vec<u8>,
    timestamp: i64,
) -> (r: Result<WithdrawOutcome, ShadowError>)
    requires
        old(pool).wf(),
    ensures
        final(pool).wf(),
        r is Err <==> withdraw_err(
            *old(pool),
            nullifier_hash,
            root,
            spec_proof_valid(proof_a@, proof_b@, proof_c@),
        ) is Some,
        r matches Err(e) ==> Some(e) == withdraw_err(
            *old(pool),
            nullifier_hash,
            root,
            spec_proof_valid(proof_a@, proof_b@, proof_c@),
        ) && *final(pool) == *old(pool),
        r matches Ok(out) ==> ({
            &&& out.fee == spec_fee(old(pool).denomination, old(pool).fee_bps)
            &&& out.payout + out.fee == old(pool).denomination
            &&& out.event.nullifier_hash == nullifier_hash
            &&& out.event.recipient == recipient
            &&& out.event.amount == out.payout
            &&& out.event.timestamp == timestamp
            &&& !old(pool).spent(nullifier_hash)
            &&& old(pool).root_accepted(root)
            &&& final(pool).spent(nullifier_hash)
            &&& final(pool).total_withdrawn as int == old(pool).total_withdrawn as int + old(pool).denomination as int
        }),
        // a nullifier hash, once spent, is rejected forever, whatever the proof
        old(pool).enabled && old(pool).spent(nullifier_hash) ==> r == Err::<
            WithdrawOutcome,
            ShadowError,
        >(ShadowError::NullifierAlreadyUsed),
        // a root that was never produced by this pool is never accepted
        old(pool).enabled && !old(pool).spent(nullifier_hash) && !old(pool).roots_pushed().contains(
            root,
        ) ==> r == Err::<WithdrawOutcome, ShadowError>(ShadowError::InvalidMerkleRoot),
        forall|x: Digest|
            final(pool).spent(x) == (old(pool).spent(x) || (r is Ok && x == nullifier_hash)),
        final(pool).commitments() == old(pool).commitments(),
        final(pool).merkle_root == old(pool).merkle_root,
        final(pool).current_index == old(pool).current_index,
        final(pool).total_deposited == old(pool).total_deposited,
        final(pool).roots_pushed() == old(pool).roots_pushed(),
        final(pool).authority == old(pool).authority,
        final(pool).denomination == old(pool).denomination,
        final(pool).fee_bps == old(pool).fee_bps,
        final(pool).fee_recipient == old(pool).fee_recipient,
        final(pool).enabled == old(pool).enabled,
        final(pool).spec_depth() == old(pool).spec_depth(),
        final(pool).spec_window() == old(pool).spec_window(),
{
    if !pool.enabled {
        return Err(ShadowError::PoolInactive);
    }
    if pool.nullifiers.is_spent(nullifier_hash) {
        return Err(ShadowError::NullifierAlreadyUsed);
    }
    let root_ok = pool.history.contains(root);
    proof {
        if pool.history.spec_contains(root) {
            pool.history.lemma_accepted_was_pushed(root);
        }
    }
    if !root_ok {
        return Err(ShadowError::InvalidMerkleRoot);
    }
    let pv = verify_proof(proof_a, proof_b, proof_c);
    if !pv {
        return Err(ShadowError::InvalidProof);
    }
    if pool.total_withdrawn > u64::MAX - pool.denomination {
        return Err(ShadowError::ArithmeticOverflow);
    }
    let res = pool.nullifiers.mark_spent(nullifier_hash);
    match res {
        Ok(()) => {},
        Err(e) => {
            // unreachable: the freshness gate above already rejected a spent hash
            proof {
                assert(false);
            }
            return Err(e);
        },
    }
    let fee = compute_fee(pool.denomination, pool.fee_bps);
    let payout = pool.denomination - fee;
    pool.total_withdrawn = pool.total_withdrawn + pool.denomination;
    let event = WithdrawEvent { nullifier_hash, recipient, amount: payout, timestamp };
    Ok(WithdrawOutcome { payout, fee, event })
}

/// Conservation law: in every well-formed pool the books balance — the total
/// ever deposited is exactly the denomination times the number of leaves.
pub proof fn lemma_books_balance(pool: PrivacyPool)
    requires
        pool.wf(),
    ensures
        pool.total_deposited as int == pool.denomination as int * pool.commitments().len(),
{
}

/// Determinism law: the pool's root is a pure function of the ordered
/// commitment sequence and the tree depth — two pools that accepted the same
/// deposits in the same order carry the identical root, whatever their other
/// configuration, so re-running a deposit sequence from an empty pool
/// reproduces the root exactly.
pub proof fn lemma_pool_root_deterministic(a: PrivacyPool, b: PrivacyPool)
    requires
        a.wf(),
        b.wf(),
        a.spec_depth() == b.spec_depth(),
        a.commitments() == b.commitments(),
    ensures
        a.merkle_root == b.merkle_root,
{
    MerkleAccumulator::lemma_root_deterministic(a.tree, b.tree);
}

/// Double-spend law: on an enabled pool, a withdrawal presenting an already
/// spent nullifier hash is gated to `NullifierAlreadyUsed` whatever root and
/// proof accompany it. Under the host's per-pool serialization, of two
/// attempts on the same hash the first to commit marks it spent and every
/// later one falls under this law.
pub proof fn lemma_spent_nullifier_rejected(
    pool: PrivacyPool,
    nullifier_hash: Digest,
    root: Digest,
    proof_valid: bool,
)
    requires
        pool.enabled,
        pool.spent(nullifier_hash),
    ensures
        withdraw_err(pool, nullifier_hash, root, proof_valid) == Some(
            ShadowError::NullifierAlreadyUsed,
        ),
{
}

/// Unknown-root law: on an enabled pool, a withdrawal presenting a root the
/// pool never produced is gated to `InvalidMerkleRoot` even if the proof
/// would be accepted for some other root.
pub proof fn lemma_unknown_root_rejected(
    pool: PrivacyPool,
    nullifier_hash: Digest,
    root: Digest,
    proof_valid: bool,
)
    requires
        pool.wf(),
        pool.enabled,
        !pool.spent(nullifier_hash),
        !pool.roots_pushed().contains(root),
    ensures
        withdraw_err(pool, nullifier_hash, root, proof_valid) == Some(
            ShadowError::InvalidMerkleRoot,
        ),
{
    if pool.root_accepted(root) {
        pool.history.lemma_accepted_was_pushed(root);
    }
}

} // verus!
