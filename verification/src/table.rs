//! The table through which the control plane tells the classifier which
//! addresses are managed and whether their backends are up.

use crate::ipmap::IpMap;
use vstd::prelude::*;

verus! {

/// The most addresses the table can hold.
pub const MAX_ENTRIES: usize = 1024;

/// Flag of a managed address whose backends are scaled down.
pub const FLAG_SCALED_DOWN: u32 = 0;

/// Flag of a managed address whose backends are available.
pub const FLAG_AVAILABLE: u32 = 1;

/// Why a write to the table was refused.
#[derive(Clone, Copy, Debug, PartialEq, Eq, Structural)]
pub enum TableError {
    /// The table is full and the address is not in it.
    CapacityExceeded,
}

/// Bounded map from IPv4 address (host byte order) to availability flag.
/// An address is managed iff it is a key.
pub struct ServiceAvailability {
    entries: IpMap<u32>,
}

impl ServiceAvailability {
    pub closed spec fn wf(&self) -> bool {
        &&& self.entries.wf()
        &&& self.entries.key_seq().len() <= MAX_ENTRIES
    }

    pub closed spec fn view(&self) -> Map<u32, u32> {
        self.entries@
    }

    /// The managed addresses in the order in which they entered the table.
    pub closed spec fn key_seq(&self) -> Seq<u32> {
        self.entries.key_seq()
    }

    pub proof fn lemma_keys(&self)
        requires
            self.wf(),
        ensures
            self.key_seq().no_duplicates(),
            self.key_seq().to_set() == self@.dom(),
            self.key_seq().len() == self@.len(),
            self@.dom().finite(),
            self@.len() <= MAX_ENTRIES,
    {
        self.entries.lemma_view();
    }

    pub fn new() -> (t: Self)
        ensures
            t.wf(),
            t@ == Map::<u32, u32>::empty(),
    {
        ServiceAvailability { entries: IpMap::new() }
    }

    pub fn len(&self) -> (n: usize)
        requires
            self.wf(),
        ensures
            n == self@.len(),
            n <= MAX_ENTRIES,
    {
        self.entries.len()
    }

    pub fn get(&self, ip: u32) -> (flag: Option<u32>)
        requires
            self.wf(),
        ensures
            flag == (if self@.contains_key(ip) {
                Some(self@[ip])
            } else {
                None
            }),
    {
        match self.entries.get(ip) {
            Some(v) => Some(*v),
            None => None,
        }
    }

    /// Writes `flag` for `ip`. A new address is refused when the table is
    /// full; the table is then left as it was.
    pub fn insert(&mut self, ip: u32, flag: u32) -> (r: Result<(), TableError>)
        requires
            old(self).wf(),
        ensures
            final(self).wf(),
            r is Ok <==> old(self)@.contains_key(ip) || old(self)@.len() < MAX_ENTRIES,
            r is Ok ==> final(self)@ == old(self)@.insert(ip, flag),
            r is Ok && old(self)@.contains_key(ip) ==> final(self).key_seq() == old(self).key_seq(),
            r is Ok && !old(self)@.contains_key(ip) ==> final(self).key_seq() == old(
                self,
            ).key_seq().push(ip),
            r is Err ==> r == Err::<(), TableError>(TableError::CapacityExceeded) && *final(self)
                == *old(self),
    {
        if !self.entries.contains_key(ip) && self.entries.len() >= MAX_ENTRIES {
            return Err(TableError::CapacityExceeded);
        }
        self.entries.insert(ip, flag);
        Ok(())
    }

    /// Removes `ip`; says whether it was there.
    pub fn remove(&mut self, ip: u32) -> (was_present: bool)
        requires
            old(self).wf(),
        ensures
            final(self).wf(),
            was_present == old(self)@.contains_key(ip),
            final(self)@ == old(self)@.remove(ip),
            !was_present ==> final(self).key_seq() == old(self).key_seq(),
            was_present ==> final(self).key_seq() == old(self).key_seq().remove(
                old(self).key_seq().index_of(ip),
            ),
    {
        self.entries.remove(ip)
    }

    /// The managed addresses, in the order in which they entered the table.
    pub fn keys(&self) -> (ks: Vec<u32>)
        requires
            self.wf(),
        ensures
            ks@ == self.key_seq(),
            ks@.no_duplicates(),
            ks@.to_set() == self@.dom(),
    {
        proof {
            self.lemma_keys();
        }
        let n = self.entries.len();
        let mut ks: Vec<u32> = Vec::new();
        let mut i: usize = 0;
        while i < n
            invariant
                self.wf(),
                n == self.entries.key_seq().len(),
                i <= n,
                ks@ == self.entries.key_seq().subrange(0, i as int),
            decreases n - i,
        {
            let k = self.entries.key_at(i);
            ks.push(k);
            assert(ks@ =~= self.entries.key_seq().subrange(0, i + 1));
            i += 1;
        }
        assert(ks@ =~= self.entries.key_seq());
        ks
    }
}

} // verus!
