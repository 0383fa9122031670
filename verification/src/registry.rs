//! The process-wide robot registry: one live session per identity.
//!
//! The registry maps a robot's 128-bit identity to the handle its
//! operators reach it through. Registration refuses a second entry for
//! an identity that already has one — the caller closes the new socket
//! instead of overwriting the live session.

use vstd::prelude::*;

verus! {

/// Identity-to-handle map with pairwise distinct identities.
pub struct RobotRegistry<T> {
    pub ids: Vec<u128>,
    pub handles: Vec<T>,
}

impl<T> RobotRegistry<T> {
    /// One handle per identity, identities pairwise distinct.
    pub open spec fn wf(self) -> bool {
        &&& self.ids@.len() == self.handles@.len()
        &&& forall|i: int, j: int|
            0 <= i < self.ids@.len() && 0 <= j < self.ids@.len() && i != j ==> self.ids@[i]
                != self.ids@[j]
    }

    /// Whether an identity has a live entry.
    pub open spec fn spec_contains(self, id: u128) -> bool {
        exists|i: int| 0 <= i < self.ids@.len() && self.ids@[i] == id
    }

    /// The index of an identity's entry.
    pub open spec fn spec_index_of(self, id: u128) -> int {
        choose|i: int| 0 <= i < self.ids@.len() && self.ids@[i] == id
    }

    /// An empty registry.
    pub fn new() -> (r: Self)
        ensures
            r.wf(),
            r.ids@.len() == 0,
    {
        RobotRegistry { ids: Vec::new(), handles: Vec::new() }
    }

    /// How many robots are registered.
    pub fn count(&self) -> (r: usize)
        requires
            self.wf(),
        ensures
            r == self.ids@.len(),
    {
        self.ids.len()
    }

    /// The identity of the entry at an index.
    pub fn id_at(&self, i: usize) -> (r: u128)
        requires
            self.wf(),
            i < self.ids@.len(),
        ensures
            r == self.ids@[i as int],
    {
        self.ids[i]
    }

    /// The handle of the entry at an index.
    pub fn handle_at(&self, i: usize) -> (r: &T)
        requires
            self.wf(),
            i < self.ids@.len(),
        ensures
            *r == self.handles@[i as int],
    {
        &self.handles[i]
    }

    /// Register a robot. A second registration for a live identity is
    /// refused and hands the new handle back; exactly one session per
    /// identity ever enters service.
    pub fn register(&mut self, id: u128, handle: T) -> (r: Result<(), T>)
        requires
            old(self).wf(),
        ensures
            final(self).wf(),
            r is Ok <==> !old(self).spec_contains(id),
            r is Ok ==> final(self).ids@ == old(self).ids@.push(id) && final(self).handles@ == old(
                self,
            ).handles@.push(handle),
            r is Err ==> final(self).ids@ == old(self).ids@ && final(self).handles@ == old(
                self,
            ).handles@ && r->Err_0 == handle,
            final(self).spec_contains(id),
    {
        let n = self.ids.len();
        let mut i: usize = 0;
        while i < n
            invariant
                self.wf(),
                *self == *old(self),
                n == self.ids@.len(),
                i <= n,
                forall|j: int| 0 <= j < i ==> self.ids@[j] != id,
            decreases n - i,
        {
            if self.ids[i] == id {
                return Err(handle);
            }
            i = i + 1;
        }
        self.ids.push(id);
        self.handles.push(handle);
        proof {
            assert(self.ids@[self.ids@.len() - 1] == id);
        }
        Ok(())
    }

    /// The handle registered for an identity, if any.
    pub fn lookup(&self, id: u128) -> (r: Option<&T>)
        requires
            self.wf(),
        ensures
            r is Some <==> self.spec_contains(id),
            r is Some ==> *r->0 == self.handles@[self.spec_index_of(id)],
    {
        let n = self.ids.len();
        let mut i: usize = 0;
        while i < n
            invariant
                self.wf(),
                n == self.ids@.len(),
                i <= n,
                forall|j: int| 0 <= j < i ==> self.ids@[j] != id,
            decreases n - i,
        {
            if self.ids[i] == id {
                proof {
                    let w = self.spec_index_of(id);
                    assert(self.ids@[w] == id);
                    assert(w == i as int);
                }
                return Some(&self.handles[i]);
            }
            i = i + 1;
        }
        None
    }

    /// Remove an identity's entry, handing its handle back.
    pub fn remove(&mut self, id: u128) -> (r: Option<T>)
        requires
            old(self).wf(),
        ensures
            final(self).wf(),
            r is Some <==> old(self).spec_contains(id),
            !final(self).spec_contains(id),
            r is None ==> final(self).ids@ == old(self).ids@ && final(self).handles@ == old(
                self,
            ).handles@,
            forall|other: u128|
                other != id ==> (final(self).spec_contains(other) <==> old(self).spec_contains(
                    other,
                )),
    {
        let n = self.ids.len();
        let mut i: usize = 0;
        while i < n
            invariant
                self.wf(),
                *self == *old(self),
                n == self.ids@.len(),
                i <= n,
                forall|j: int| 0 <= j < i ==> self.ids@[j] != id,
            decreases n - i,
        {
            if self.ids[i] == id {
                self.ids.remove(i);
                let h = self.handles.remove(i);
                proof {
                    let ii = i as int;
                    assert forall|k: int|
                        0 <= k < self.ids@.len() implies self.ids@[k] != id by {
                        if k < ii {
                            assert(self.ids@[k] == old(self).ids@[k]);
                        } else {
                            assert(self.ids@[k] == old(self).ids@[k + 1]);
                        }
                    }
                    assert forall|other: u128|
                        other != id && old(self).spec_contains(other) implies self.spec_contains(
                        other,
                    ) by {
                        let w = choose|k: int|
                            0 <= k < old(self).ids@.len() && old(self).ids@[k] == other;
                        if w < ii {
                            assert(self.ids@[w] == other);
                        } else {
                            assert(self.ids@[w - 1] == other);
                        }
                    }
                    assert forall|other: u128|
                        other != id && self.spec_contains(other) implies old(self).spec_contains(
                        other,
                    ) by {
                        let w = choose|k: int|
                            0 <= k < self.ids@.len() && self.ids@[k] == other;
                        if w < ii {
                            assert(old(self).ids@[w] == other);
                        } else {
                            assert(old(self).ids@[w + 1] == other);
                        }
                    }
                }
                return Some(h);
            }
            i = i + 1;
        }
        None
    }
}

/// One session per identity: in a well-formed registry any two entries
/// carrying the same identity are the same entry, so an identity is
/// never in service twice.
pub proof fn lemma_one_session_per_identity<T>(r: RobotRegistry<T>, i: int, j: int)
    requires
        r.wf(),
        0 <= i < r.ids@.len(),
        0 <= j < r.ids@.len(),
        r.ids@[i] == r.ids@[j],
    ensures
        i == j,
{
}

} // verus!
