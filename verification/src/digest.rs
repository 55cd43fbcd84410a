use vstd::prelude::*;

verus! {

/// An opaque 256-bit value held as four 64-bit limbs: commitments, nullifier
/// hashes and merkle nodes are all values of this shape.
#[derive(Clone, Copy, Debug, PartialEq, Eq, Structural, Hash)]
pub struct Digest {
    pub w0: u64,
    pub w1: u64,
    pub w2: u64,
    pub w3: u64,
}

/// Account addresses (authority, recipients) are opaque 256-bit values of the
/// same shape as digests; the engine only carries them through.
pub type Identity = Digest;

impl Digest {
    /// The all-zero digest: the value of an unfilled leaf slot.
    pub open spec fn spec_zero() -> Digest {
        Digest { w0: 0, w1: 0, w2: 0, w3: 0 }
    }

    pub fn zero() -> (r: Digest)
        ensures
            r == Digest::spec_zero(),
    {
        Digest { w0: 0, w1: 0, w2: 0, w3: 0 }
    }

    pub fn new(w0: u64, w1: u64, w2: u64, w3: u64) -> (r: Digest)
        ensures
            r == (Digest { w0, w1, w2, w3 }),
    {
        Digest { w0, w1, w2, w3 }
    }
}

/// Multiplication of two 64-bit words, reduced modulo `2^64`.
pub open spec fn mul_mod64(a: u64, b: u64) -> u64 {
    (((a as nat) * (b as nat)) % 0x1_0000_0000_0000_0000) as u64
}

/// One diffusion round: xor-shift and multiply, modulo `2^64`.
pub closed spec fn spec_mix64(x: u64) -> u64 {
    let a = x ^ (x >> 33);
    let b = mul_mod64(a, 0xff51afd7ed558ccd);
    let c = b ^ (b >> 29);
    let d = mul_mod64(c, 0xc4ceb9fe1a85ec53);
    d ^ (d >> 32)
}

/// The pool's two-input compression function `H(a, b)`, limb by limb.
///
/// It is a fixed, deterministic mixing function: equal inputs always give
/// equal outputs, which is all the accounting contracts rely on. A deployment
/// substitutes a collision-resistant hash matching the offline proof circuit;
/// the contracts in this crate treat the function abstractly, so nothing else
/// changes with it.
pub closed spec fn spec_hash_pair(a: Digest, b: Digest) -> Digest {
    let s0 = spec_mix64(a.w0 ^ 0x9e3779b97f4a7c15);
    let s1 = spec_mix64(s0 ^ a.w1);
    let s2 = spec_mix64(s1 ^ a.w2);
    let s3 = spec_mix64(s2 ^ a.w3);
    let s4 = spec_mix64(s3 ^ b.w0);
    let s5 = spec_mix64(s4 ^ b.w1);
    let s6 = spec_mix64(s5 ^ b.w2);
    let s7 = spec_mix64(s6 ^ b.w3);
    Digest {
        w0: spec_mix64(s7 ^ 1),
        w1: spec_mix64(s7 ^ 2),
        w2: spec_mix64(s7 ^ 3),
        w3: spec_mix64(s7 ^ 4),
    }
}

fn mul_mod64_exec(a: u64, b: u64) -> (r: u64)
    ensures
        r == mul_mod64(a, b),
{
    proof {
        assert((a as nat) * (b as nat) < 0x1_0000_0000_0000_0000 * 0x1_0000_0000_0000_0000)
            by (nonlinear_arith)
            requires
                a <= 0xffff_ffff_ffff_ffff,
                b <= 0xffff_ffff_ffff_ffff,
        ;
    }
    let p: u128 = (a as u128) * (b as u128);
    (p % 0x1_0000_0000_0000_0000u128) as u64
}

fn mix64(x: u64) -> (r: u64)
    ensures
        r == spec_mix64(x),
{
    let a = x ^ (x >> 33);
    let b = mul_mod64_exec(a, 0xff51afd7ed558ccd);
    let c = b ^ (b >> 29);
    let d = mul_mod64_exec(c, 0xc4ceb9fe1a85ec53);
    d ^ (d >> 32)
}

/// Executable form of the compression function `H(a, b)`.
pub fn hash_pair(a: Digest, b: Digest) -> (r: Digest)
    ensures
        r == spec_hash_pair(a, b),
{
    let s0 = mix64(a.w0 ^ 0x9e3779b97f4a7c15);
    let s1 = mix64(s0 ^ a.w1);
    let s2 = mix64(s1 ^ a.w2);
    let s3 = mix64(s2 ^ a.w3);
    let s4 = mix64(s3 ^ b.w0);
    let s5 = mix64(s4 ^ b.w1);
    let s6 = mix64(s5 ^ b.w2);
    let s7 = mix64(s6 ^ b.w3);
    Digest {
        w0: mix64(s7 ^ 1),
        w1: mix64(s7 ^ 2),
        w2: mix64(s7 ^ 3),
        w3: mix64(s7 ^ 4),
    }
}

} // verus!
