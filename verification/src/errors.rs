use vstd::prelude::*;

verus! {

/// Every way a pool operation can be rejected. Each precondition failure
/// aborts the whole operation with no partial state change; the contracts of
/// `pool::deposit` and `pool::withdraw` say exactly which input yields which
/// variant.
#[derive(Clone, Copy, Debug, PartialEq, Eq, Structural)]
pub enum ShadowError {
    /// The pool's `enabled` flag is off.
    PoolInactive,
    /// The accumulator already holds its full `2^depth` leaves.
    PoolFull,
    /// The supplied proof was rejected.
    InvalidProof,
    /// The supplied root was not found in the accepted root window.
    InvalidMerkleRoot,
    /// The nullifier hash has already been spent.
    NullifierAlreadyUsed,
    /// A pool was configured with an unsupported denomination.
    InvalidDenomination,
    /// The caller is not allowed to perform the operation.
    Unauthorized,
    /// A counter update would overflow its 64-bit representation.
    ArithmeticOverflow,
    /// The commitment was already inserted into this pool.
    DuplicateCommitment,
    /// The ledger collaborator refused to move funds; surfaced by the host.
    TransferFailed,
}

} // verus!
