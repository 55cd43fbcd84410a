//! Shielded-value pool accounting engine.
//!
//! Depositors lock a fixed denomination under a public commitment; withdrawers
//! later present a nullifier hash, a recent merkle root and a proof, and the
//! engine enforces that no deposit is withdrawn twice and that the books
//! balance. The ledger that actually moves value, the clock, and the
//! zero-knowledge verifier are external collaborators: the engine computes
//! decisions and amounts from plain values and hands the transfers back to its
//! host.

pub mod digest;
pub mod errors;
pub mod history;
pub mod merkle;
pub mod nullifier;
pub mod pool;
