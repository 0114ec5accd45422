//! The secondary index that routes workload events to the service that
//! owns the workload.

use crate::model::{WorkloadReference, WorkloadReferenceView};
use vstd::prelude::*;

verus! {

/// Map from workload identity to the cluster IP of the owning service.
pub struct WorkloadIndex {
    refs: Vec<WorkloadReference>,
    ips: Vec<u32>,
}

impl WorkloadIndex {
    /// The identities held, by content, in insertion order.
    pub closed spec fn ref_seq(&self) -> Seq<WorkloadReferenceView> {
        Seq::new(self.refs@.len(), |i: int| self.refs@[i]@)
    }

    pub closed spec fn wf(&self) -> bool {
        &&& self.refs@.len() == self.ips@.len()
        &&& self.ref_seq().no_duplicates()
    }

    pub closed spec fn view(&self) -> Map<WorkloadReferenceView, u32> {
        Map::new(
            |r: WorkloadReferenceView| self.ref_seq().contains(r),
            |r: WorkloadReferenceView| self.ips@[self.ref_seq().index_of(r)],
        )
    }

    proof fn lemma_view(&self)
        requires
            self.wf(),
        ensures
            forall|i: int|
                0 <= i < self.ref_seq().len() ==> self@.contains_key(#[trigger] self.ref_seq()[i])
                    && self@[self.ref_seq()[i]] == self.ips@[i],
            forall|r: WorkloadReferenceView| #[trigger]
                self@.contains_key(r) ==> 0 <= self.ref_seq().index_of(r) < self.ref_seq().len()
                    && self.ref_seq()[self.ref_seq().index_of(r)] == r,
    {
        let rs = self.ref_seq();
        assert forall|i: int| 0 <= i < rs.len() implies self@.contains_key(#[trigger] rs[i])
            && self@[rs[i]] == self.ips@[i] by {
            assert(rs.contains(rs[i]));
            let j = rs.index_of(rs[i]);
            assert(rs[j] == rs[i]);
        }
    }

    pub fn new() -> (index: Self)
        ensures
            index.wf(),
            index@ == Map::<WorkloadReferenceView, u32>::empty(),
    {
        let index = WorkloadIndex { refs: Vec::new(), ips: Vec::new() };
        assert(index@ =~= Map::<WorkloadReferenceView, u32>::empty());
        index
    }

    fn position(&self, reference: &WorkloadReference) -> (r: Option<usize>)
        requires
            self.wf(),
        ensures
            r is Some <==> self@.contains_key(reference@),
            r matches Some(i) ==> i < self.ref_seq().len() && self.ref_seq()[i as int]
                == reference@,
    {
        let mut i: usize = 0;
        while i < self.refs.len()
            invariant
                i <= self.refs@.len(),
                self.ref_seq().len() == self.refs@.len(),
                forall|j: int| 0 <= j < i ==> self.ref_seq()[j] != reference@,
            decreases self.refs@.len() - i,
        {
            if self.refs[i].same_workload(reference) {
                assert(self.ref_seq()[i as int] == reference@);
                assert(self.ref_seq().contains(reference@));
                return Some(i);
            }
            i += 1;
        }
        None
    }

    /// The cluster IP of the service that owns the workload, if one does.
    pub fn get(&self, reference: &WorkloadReference) -> (ip: Option<u32>)
        requires
            self.wf(),
        ensures
            ip == (if self@.contains_key(reference@) {
                Some(self@[reference@])
            } else {
                None
            }),
    {
        match self.position(reference) {
            Some(i) => {
                proof {
                    self.lemma_view();
                }
                Some(self.ips[i])
            },
            None => None,
        }
    }

    /// Records that the service at `ip` owns the workload.
    pub fn insert(&mut self, reference: WorkloadReference, ip: u32)
        requires
            old(self).wf(),
        ensures
            final(self).wf(),
            final(self)@ == old(self)@.insert(reference@, ip),
    {
        let ghost before = *self;
        let ghost key = reference@;
        proof {
            before.lemma_view();
        }
        match self.position(&reference) {
            Some(i) => {
                self.ips.set(i, ip);
                proof {
                    assert(self.ref_seq() =~= before.ref_seq());
                    self.lemma_view();
                    assert(self@ =~= before@.insert(key, ip)) by {
                        assert forall|r: WorkloadReferenceView|
                            self@.contains_key(r) implies #[trigger] self@[r] == before@.insert(
                            key,
                            ip,
                        )[r] by {
                            let j = self.ref_seq().index_of(r);
                            assert(self.ref_seq()[j] == r);
                        }
                    }
                }
            },
            None => {
                self.refs.push(reference);
                self.ips.push(ip);
                proof {
                    let rs = self.ref_seq();
                    let rs0 = before.ref_seq();
                    assert(rs =~= rs0.push(key));
                    assert(rs.no_duplicates()) by {
                        assert forall|a: int, b: int|
                            0 <= a < rs.len() && 0 <= b < rs.len() && a != b implies rs[a]
                            != rs[b] by {
                            if a < rs0.len() {
                                assert(rs0.contains(rs0[a]));
                            }
                            if b < rs0.len() {
                                assert(rs0.contains(rs0[b]));
                            }
                        }
                    }
                    self.lemma_view();
                    assert(self@ =~= before@.insert(key, ip)) by {
                        assert forall|r: WorkloadReferenceView|
                            before@.insert(key, ip).contains_key(r) implies self@.contains_key(
                            r,
                        ) by {
                            if r == key {
                                assert(rs[rs0.len() as int] == key);
                            } else {
                                let j = rs0.index_of(r);
                                assert(rs[j] == r);
                            }
                        }
                        assert forall|r: WorkloadReferenceView|
                            self@.contains_key(r) implies before@.insert(key, ip).contains_key(r)
                            && #[trigger] self@[r] == before@.insert(key, ip)[r] by {
                            let j = rs.index_of(r);
                            assert(rs[j] == r);
                            if j < rs0.len() {
                                assert(rs0[j] == r);
                                assert(rs0.contains(r));
                            }
                        }
                    }
                }
            },
        }
    }
}

} // verus!
