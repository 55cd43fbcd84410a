use vstd::prelude::*;
use crate::digest::Digest;

verus! {

/// A bounded window of recently valid merkle roots.
///
/// A withdrawal proof is generated against the root at proof-creation time,
/// which may lag behind later deposits; the pool therefore accepts any of the
/// last `window` roots, not only the newest one. `push` appends the root that
/// a deposit produced and evicts the oldest entry once the window is full.
pub struct RootHistory {
    window: usize,
    entries: Vec<Digest>,
    pushed: Ghost<Seq<Digest>>,
}

impl RootHistory {
    /// How many recent roots stay accepted.
    pub closed spec fn spec_window(self) -> nat {
        self.window as nat
    }

    /// Every root ever pushed, oldest first.
    pub closed spec fn all_pushed(self) -> Seq<Digest> {
        self.pushed@
    }

    /// Index into `all_pushed` where the accepted window begins.
    pub open spec fn start(self) -> int {
        if self.all_pushed().len() <= self.spec_window() {
            0
        } else {
            self.all_pushed().len() - self.spec_window()
        }
    }

    /// The roots currently accepted for withdrawal: exactly the most recent
    /// `window` roots of all that were ever pushed.
    pub closed spec fn accepted(self) -> Seq<Digest> {
        self.entries@
    }

    pub open spec fn wf(self) -> bool {
        &&& self.spec_window() >= 1
        &&& self.accepted() == self.all_pushed().skip(self.start())
    }

    pub open spec fn spec_contains(self, d: Digest) -> bool {
        self.accepted().contains(d)
    }

    /// The window never invents a root: whatever it accepts was pushed at
    /// some point.
    pub proof fn lemma_accepted_was_pushed(self, d: Digest)
        requires
            self.wf(),
            self.spec_contains(d),
        ensures
            self.all_pushed().contains(d),
    {
        let i = choose|i: int| 0 <= i < self.accepted().len() && self.accepted()[i] == d;
        assert(self.all_pushed()[self.start() + i] == d);
    }

    pub fn new(window: usize) -> (r: RootHistory)
        requires
            window >= 1,
        ensures
            r.wf(),
            r.spec_window() == window,
            r.all_pushed() == Seq::<Digest>::empty(),
            r.accepted() == Seq::<Digest>::empty(),
    {
        let r = RootHistory { window, entries: Vec::new(), pushed: Ghost(Seq::empty()) };
        proof {
            assert(r.accepted() =~= r.all_pushed().skip(r.start()));
        }
        r
    }

    /// Appends a fresh root; once the window is full the oldest accepted
    /// root is evicted. The newest root is always accepted afterwards.
    pub fn push(&mut self, root: Digest)
        requires
            old(self).wf(),
        ensures
            final(self).wf(),
            final(self).spec_window() == old(self).spec_window(),
            final(self).all_pushed() == old(self).all_pushed().push(root),
            final(self).spec_contains(root),
    {
        let ghost p0 = self.pushed@;
        let ghost e0 = self.entries@;
        let ghost s0 = self.start();
        if self.entries.len() == self.window {
            self.entries.remove(0);
        }
        self.entries.push(root);
        proof {
            self.pushed@ = self.pushed@.push(root);
        }
        proof {
            let p1 = self.pushed@;
            let e1 = self.entries@;
            let s1 = self.start();
            if e0.len() == self.window as int {
                // eviction: the window slides forward by one
                assert(s1 == s0 + 1);
                assert forall|t: int| 0 <= t < e1.len() implies e1[t] == p1.skip(s1)[t] by {
                    if t < e1.len() - 1 {
                        assert(e1[t] == e0.remove(0).push(root)[t]);
                        assert(e0.remove(0)[t] == e0[t + 1]);
                        assert(e0[t + 1] == p0.skip(s0)[t + 1]);
                    } else {
                        assert(e1[t] == root);
                    }
                }
                assert(e1 =~= p1.skip(s1));
            } else {
                // the window has room: nothing is evicted
                assert(s0 == 0 && s1 == 0);
                assert(e1 =~= p1.skip(s1));
            }
            assert(e1[e1.len() - 1] == root);
        }
    }

    /// Whether `d` is one of the currently accepted roots.
    pub fn contains(&self, d: Digest) -> (r: bool)
        ensures
            r == self.spec_contains(d),
    {
        let n = self.entries.len();
        let mut i: usize = 0;
        while i < n
            invariant
                i <= n,
                n == self.entries@.len(),
                forall|j: int| 0 <= j < i ==> self.entries@[j] != d,
            decreases n - i,
        {
            if self.entries[i] == d {
                assert(self.accepted()[i as int] == d);
                return true;
            }
            i = i + 1;
        }
        false
    }
}

} // verus!
