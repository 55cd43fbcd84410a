use vstd::prelude::*;
use crate::digest::Digest;
use crate::errors::ShadowError;

verus! {

/// A spent-deposit record, keyed directly by nullifier hash.
///
/// The hash is derived from the depositor's secret and revealed only at
/// withdrawal, and it is cryptographically unlinkable to any commitment, so
/// the record is created at the first successful withdrawal and carries no
/// back-reference to a leaf. `spent` is terminal: no transition ever clears
/// it, and no record is ever removed.
#[derive(Clone, Copy, Debug, PartialEq, Eq, Structural)]
pub struct Nullifier {
    pub nullifier_hash: Digest,
    pub spent: bool,
}

/// The set of nullifier hashes that have been spent. Marking is an atomic
/// check-and-set: a hash already present is rejected, so no two withdrawals
/// of the same deposit can both pass.
pub struct NullifierSet {
    records: Vec<Nullifier>,
}

impl NullifierSet {
    /// The nullifier hashes marked spent, in marking order.
    pub closed spec fn hashes(self) -> Seq<Digest> {
        self.records@.map_values(|r: Nullifier| r.nullifier_hash)
    }

    pub open spec fn spec_is_spent(self, d: Digest) -> bool {
        self.hashes().contains(d)
    }

    /// Every record is in the terminal `spent` state: unspent deposits have
    /// no record at all.
    pub closed spec fn wf(self) -> bool {
        forall|i: int| 0 <= i < self.records@.len() ==> (#[trigger] self.records@[i]).spent
    }

    pub fn new() -> (r: NullifierSet)
        ensures
            r.wf(),
            r.hashes() == Seq::<Digest>::empty(),
    {
        let r = NullifierSet { records: Vec::new() };
        proof {
            assert(r.hashes() =~= Seq::<Digest>::empty());
        }
        r
    }

    /// Whether `d` has already been spent.
    pub fn is_spent(&self, d: Digest) -> (r: bool)
        ensures
            r == self.spec_is_spent(d),
    {
        let n = self.records.len();
        let mut i: usize = 0;
        while i < n
            invariant
                i <= n,
                n == self.records@.len(),
                forall|j: int| 0 <= j < i ==> (#[trigger] self.records@[j]).nullifier_hash != d,
            decreases n - i,
        {
            if self.records[i].nullifier_hash == d {
                assert(self.hashes()[i as int] == d);
                return true;
            }
            i = i + 1;
        }
        proof {
            assert forall|j: int| 0 <= j < self.hashes().len() implies self.hashes()[j] != d by {
                assert(self.records@[j].nullifier_hash != d);
            }
        }
        false
    }

    /// Atomically checks and marks `d` spent: fails with
    /// `NullifierAlreadyUsed` — leaving the set unchanged — exactly when `d`
    /// was spent before; otherwise `d` is spent afterwards, and every hash
    /// spent before stays spent.
    pub fn mark_spent(&mut self, d: Digest) -> (r: Result<(), ShadowError>)
        requires
            old(self).wf(),
        ensures
            final(self).wf(),
            r is Ok <==> !old(self).spec_is_spent(d),
            r matches Err(e) ==> e == ShadowError::NullifierAlreadyUsed && *final(self) == *old(
                self,
            ),
            r is Ok ==> final(self).hashes() == old(self).hashes().push(d),
            forall|x: Digest|
                final(self).spec_is_spent(x) == (old(self).spec_is_spent(x) || (r is Ok && x
                    == d)),
    {
        if self.is_spent(d) {
            return Err(ShadowError::NullifierAlreadyUsed);
        }
        self.records.push(Nullifier { nullifier_hash: d, spent: true });
        proof {
            let h0 = old(self).hashes();
            let h1 = self.hashes();
            assert(h1 =~= h0.push(d));
            assert forall|x: Digest|
                self.spec_is_spent(x) == (old(self).spec_is_spent(x) || x == d) by {
                if old(self).spec_is_spent(x) {
                    let i = choose|i: int| 0 <= i < h0.len() && h0[i] == x;
                    assert(h1[i] == x);
                }
                if x == d {
                    assert(h1[h0.len() as int] == x);
                }
                if self.spec_is_spent(x) {
                    let i = choose|i: int| 0 <= i < h1.len() && h1[i] == x;
                    if i < h0.len() {
                        assert(h0[i] == x);
                    }
                }
            }
        }
        Ok(())
    }
}

} // verus!
