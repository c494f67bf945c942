//! Request ids and the table of requests awaiting a response.

use vstd::prelude::*;

use crate::text::str_eq;

verus! {

/// Issues request ids, each strictly greater than every id issued before.
pub struct RequestIdGen {
    pub next: u64,
    /// Every id issued so far, in issue order.
    pub issued: Ghost<Seq<u64>>,
}

impl RequestIdGen {
    /// The structural invariant: issued ids grow strictly, and all lie below
    /// the next id.
    pub open spec fn wf(&self) -> bool {
        &&& forall|i: int, j: int|
            0 <= i < j < self.issued@.len() ==> self.issued@[i] < self.issued@[j]
        &&& forall|i: int| 0 <= i < self.issued@.len() ==> #[trigger] self.issued@[i] < self.next
    }

    /// Starts issuing at 1.
    pub fn new() -> (r: Self)
        ensures
            r.wf(),
            r.next == 1,
            r.issued@ == Seq::<u64>::empty(),
    {
        RequestIdGen { next: 1, issued: Ghost(Seq::empty()) }
    }

    /// Issues the next id.
    pub fn issue(&mut self) -> (r: u64)
        requires
            old(self).wf(),
            old(self).next < u64::MAX,
        ensures
            final(self).wf(),
            r == old(self).next,
            final(self).next == old(self).next + 1,
            final(self).issued@ == old(self).issued@.push(r),
    {
        let id = self.next;
        self.next = self.next + 1;
        proof {
            self.issued@ = self.issued@.push(id);
        }
        id
    }
}

/// Ids issued by one generator are strictly increasing and never repeat
/// within its lifetime: any earlier id is strictly below any later one.
pub proof fn lemma_ids_strictly_increasing(g: RequestIdGen, i: int, j: int)
    requires
        g.wf(),
        0 <= i < j < g.issued@.len(),
    ensures
        g.issued@[i] < g.issued@[j],
        g.issued@[i] != g.issued@[j],
{
}

/// The pending-request table: each outstanding id with the method that was
/// sent under it.
pub struct PendingRequests {
    pub entries: Vec<(u64, String)>,
}

impl PendingRequests {
    /// The structural invariant: ids are unique.
    pub open spec fn wf(&self) -> bool {
        forall|i: int, j: int|
            0 <= i < j < self.entries@.len() ==> (#[trigger] self.entries@[i]).0 != (
            #[trigger] self.entries@[j]).0
    }

    /// Whether `id` is in the table.
    pub open spec fn spec_contains(&self, id: u64) -> bool {
        exists|i: int| 0 <= i < self.entries@.len() && (#[trigger] self.entries@[i]).0 == id
    }

    /// The method stored under `id`.
    pub open spec fn spec_method_of(&self, id: u64) -> Seq<char> {
        self.entries@[choose|i: int|
            0 <= i < self.entries@.len() && (#[trigger] self.entries@[i]).0 == id].1@
    }

    /// An empty table.
    pub fn new() -> (r: Self)
        ensures
            r.wf(),
            r.entries@ == Seq::<(u64, String)>::empty(),
    {
        PendingRequests { entries: Vec::new() }
    }

    /// Records a sent request.
    pub fn insert(&mut self, id: u64, method: String)
        requires
            old(self).wf(),
            !old(self).spec_contains(id),
        ensures
            final(self).wf(),
            final(self).entries@ == old(self).entries@.push((id, method)),
            final(self).spec_contains(id),
            final(self).spec_method_of(id) == method@,
            forall|x: u64|
                #[trigger] final(self).spec_contains(x) == (old(self).spec_contains(x) || x == id),
    {
        self.entries.push((id, method));
        proof {
            let n = old(self).entries@.len() as int;
            assert(self.entries@[n].0 == id);
            assert forall|x: u64| #[trigger]
                self.spec_contains(x) == (old(self).spec_contains(x) || x == id) by {
                if old(self).spec_contains(x) {
                    let i = choose|i: int|
                        0 <= i < old(self).entries@.len() && (#[trigger] old(
                            self,
                        ).entries@[i]).0 == x;
                    assert(self.entries@[i].0 == x);
                }
                if self.spec_contains(x) && x != id {
                    let i = choose|i: int|
                        0 <= i < self.entries@.len() && (#[trigger] self.entries@[i]).0 == x;
                    assert(i < n);
                    assert(old(self).entries@[i].0 == x);
                }
            }
            let w = choose|i: int|
                0 <= i < self.entries@.len() && (#[trigger] self.entries@[i]).0 == id;
            assert(w == n);
        }
    }

    /// Whether `id` is outstanding.
    pub fn contains(&self, id: u64) -> (r: bool)
        ensures
            r == self.spec_contains(id),
    {
        let mut i: usize = 0;
        while i < self.entries.len()
            invariant
                0 <= i <= self.entries@.len(),
                forall|k: int| 0 <= k < i ==> (#[trigger] self.entries@[k]).0 != id,
            decreases self.entries@.len() - i,
        {
            if self.entries[i].0 == id {
                return true;
            }
            i = i + 1;
        }
        false
    }

    /// Removes `id` and returns the method stored under it; leaves the table
    /// unchanged and returns nothing when `id` is not outstanding.
    pub fn remove(&mut self, id: u64) -> (r: Option<String>)
        requires
            old(self).wf(),
        ensures
            final(self).wf(),
            match r {
                Some(m) => old(self).spec_contains(id) && m@ == old(self).spec_method_of(id)
                    && !final(self).spec_contains(id) && final(self).entries@.len() == old(
                    self,
                ).entries@.len() - 1 && forall|x: u64|
                    x != id ==> #[trigger] final(self).spec_contains(x) == old(self).spec_contains(
                        x,
                    ),
                None => !old(self).spec_contains(id) && final(self).entries@ == old(
                    self,
                ).entries@,
            },
    {
        let mut i: usize = 0;
        while i < self.entries.len()
            invariant
                0 <= i <= self.entries@.len(),
                self.entries@ == old(self).entries@,
                old(self).wf(),
                forall|k: int| 0 <= k < i ==> (#[trigger] self.entries@[k]).0 != id,
            decreases self.entries@.len() - i,
        {
            if self.entries[i].0 == id {
                let entry = self.entries.remove(i);
                proof {
                    let oldv = old(self).entries@;
                    let w = choose|k: int| 0 <= k < oldv.len() && (#[trigger] oldv[k]).0 == id;
                    assert(oldv[i as int].0 == id);
                    assert(w == i as int);
                    assert(self.entries@ =~= oldv.subrange(0, i as int) + oldv.subrange(
                        i as int + 1,
                        oldv.len() as int,
                    ));
                    assert forall|a: int, b: int|
                        0 <= a < b < self.entries@.len() implies (#[trigger] self.entries@[a]).0
                        != (#[trigger] self.entries@[b]).0 by {
                        let a0 = if a < i as int {
                            a
                        } else {
                            a + 1
                        };
                        let b0 = if b < i as int {
                            b
                        } else {
                            b + 1
                        };
                        assert(self.entries@[a] == oldv[a0] && self.entries@[b] == oldv[b0]);
                    }
                    assert forall|x: u64| x != id implies #[trigger] self.spec_contains(x) == old(
                        self,
                    ).spec_contains(x) by {
                        if old(self).spec_contains(x) {
                            let k = choose|k: int|
                                0 <= k < oldv.len() && (#[trigger] oldv[k]).0 == x;
                            if k < i as int {
                                assert(self.entries@[k].0 == x);
                            } else {
                                assert(k > i as int);
                                assert(self.entries@[k - 1].0 == x);
                            }
                        }
                        if self.spec_contains(x) {
                            let k = choose|k: int|
                                0 <= k < self.entries@.len() && (#[trigger] self.entries@[k]).0
                                    == x;
                            let k0 = if k < i as int {
                                k
                            } else {
                                k + 1
                            };
                            assert(oldv[k0].0 == x);
                        }
                    }
                    if self.spec_contains(id) {
                        let k = choose|k: int|
                            0 <= k < self.entries@.len() && (#[trigger] self.entries@[k]).0 == id;
                        let k0 = if k < i as int {
                            k
                        } else {
                            k + 1
                        };
                        assert(oldv[k0].0 == id);
                        assert(k0 != i as int);
                    }
                }
                return Some(entry.1);
            }
            i = i + 1;
        }
        None
    }
}

} // verus!
