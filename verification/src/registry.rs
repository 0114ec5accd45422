//! The authoritative table of managed services, keyed by cluster IP.

use crate::ipmap::IpMap;
use crate::model::{ServiceData, ServiceDataView};
use crate::table::{FLAG_AVAILABLE, FLAG_SCALED_DOWN};
use vstd::prelude::*;

verus! {

/// The flag that the classifier's table should hold for a record.
pub open spec fn flag_of(record: ServiceDataView) -> u32 {
    if record.backend_available {
        FLAG_AVAILABLE
    } else {
        FLAG_SCALED_DOWN
    }
}

/// The classifier's table as the registry wants it: every managed
/// address, with the flag of its record.
pub open spec fn desired_table(services: Map<u32, ServiceDataView>) -> Map<u32, u32> {
    Map::new(|ip: u32| services.contains_key(ip), |ip: u32| flag_of(services[ip]))
}

/// `services` with the availability of `ip` set, if `ip` is managed.
pub open spec fn set_available(services: Map<u32, ServiceDataView>, ip: u32, available: bool) -> Map<
    u32,
    ServiceDataView,
> {
    if services.contains_key(ip) {
        services.insert(ip, services[ip].with_available(available))
    } else {
        services
    }
}

/// `services` with the last-packet time of `ip` set, if `ip` is managed.
pub open spec fn touched(services: Map<u32, ServiceDataView>, ip: u32, now: i64) -> Map<
    u32,
    ServiceDataView,
> {
    if services.contains_key(ip) {
        services.insert(ip, services[ip].with_last_packet(now))
    } else {
        services
    }
}

/// The order of the managed addresses after the record of `ip` was
/// created or replaced: a new address goes to the end.
pub open spec fn keys_after_upsert(keys: Seq<u32>, services: Map<u32, ServiceDataView>, ip: u32) -> Seq<
    u32,
> {
    if services.contains_key(ip) {
        keys
    } else {
        keys.push(ip)
    }
}

/// Service records by cluster IP (host byte order).
pub struct ServiceRegistry {
    services: IpMap<ServiceData>,
}

/// The content of an optional record.
pub open spec fn record_view(record: Option<ServiceData>) -> Option<ServiceDataView> {
    match record {
        Some(r) => Some(r@),
        None => None,
    }
}

impl ServiceRegistry {
    pub closed spec fn wf(&self) -> bool {
        self.services.wf()
    }

    pub closed spec fn view(&self) -> Map<u32, ServiceDataView> {
        Map::new(|ip: u32| self.services@.contains_key(ip), |ip: u32| self.services@[ip]@)
    }

    /// The managed addresses in the order in which they were first seen.
    pub closed spec fn key_seq(&self) -> Seq<u32> {
        self.services.key_seq()
    }

    pub proof fn lemma_keys(&self)
        requires
            self.wf(),
        ensures
            self.key_seq().no_duplicates(),
            self.key_seq().to_set() == self@.dom(),
            self.key_seq().len() == self@.len(),
            self@.dom().finite(),
            forall|i: int|
                0 <= i < self.key_seq().len() ==> self@.contains_key(#[trigger] self.key_seq()[i]),
    {
        self.services.lemma_view();
        assert(self@.dom() =~= self.services@.dom());
    }

    pub fn new() -> (r: Self)
        ensures
            r.wf(),
            r@ == Map::<u32, ServiceDataView>::empty(),
            r.key_seq() == Seq::<u32>::empty(),
    {
        let r = ServiceRegistry { services: IpMap::new() };
        assert(r@ =~= Map::<u32, ServiceDataView>::empty());
        r
    }

    pub fn len(&self) -> (n: usize)
        requires
            self.wf(),
        ensures
            n == self@.len(),
            n == self.key_seq().len(),
    {
        proof {
            self.lemma_keys();
        }
        self.services.len()
    }

    pub fn contains(&self, ip: u32) -> (b: bool)
        requires
            self.wf(),
        ensures
            b == self@.contains_key(ip),
    {
        self.services.contains_key(ip)
    }

    /// A copy of the record of `ip`, if it is managed.
    pub fn get(&self, ip: u32) -> (r: Option<ServiceData>)
        requires
            self.wf(),
        ensures
            record_view(r) == (if self@.contains_key(ip) {
                Some(self@[ip])
            } else {
                None
            }),
    {
        match self.services.get(ip) {
            Some(record) => Some(record.duplicate()),
            None => None,
        }
    }

    /// The managed addresses, in the order in which they were first seen.
    pub fn keys(&self) -> (ks: Vec<u32>)
        requires
            self.wf(),
        ensures
            ks@ == self.key_seq(),
            ks@.no_duplicates(),
            ks@.to_set() == self@.dom(),
    {
        proof {
            self.lemma_keys();
        }
        let n = self.services.len();
        let mut ks: Vec<u32> = Vec::new();
        let mut i: usize = 0;
        while i < n
            invariant
                self.wf(),
                n == self.services.key_seq().len(),
                i <= n,
                ks@ == self.services.key_seq().subrange(0, i as int),
            decreases n - i,
        {
            let k = self.services.key_at(i);
            ks.push(k);
            assert(ks@ =~= self.services.key_seq().subrange(0, i + 1));
            i += 1;
        }
        assert(ks@ =~= self.services.key_seq());
        ks
    }

    /// Creates the record of `ip`, or replaces it.
    pub fn upsert_service(&mut self, ip: u32, record: ServiceData)
        requires
            old(self).wf(),
        ensures
            final(self).wf(),
            final(self)@ == old(self)@.insert(ip, record@),
            final(self).key_seq() == keys_after_upsert(old(self).key_seq(), old(self)@, ip),
    {
        self.services.insert(ip, record);
        assert(self@ =~= old(self)@.insert(ip, record@));
    }

    /// Sets the availability of `ip`; says whether `ip` is managed.
    pub fn set_backend_available(&mut self, ip: u32, available: bool) -> (found: bool)
        requires
            old(self).wf(),
        ensures
            final(self).wf(),
            found == old(self)@.contains_key(ip),
            final(self)@ == set_available(old(self)@, ip, available),
            final(self).key_seq() == old(self).key_seq(),
    {
        let updated = match self.services.get(ip) {
            Some(record) => {
                let mut copy = record.duplicate();
                copy.backend_available = available;
                Some(copy)
            },
            None => None,
        };
        match updated {
            Some(record) => {
                self.services.insert(ip, record);
                assert(self@ =~= set_available(old(self)@, ip, available));
                true
            },
            None => {
                assert(self@ =~= set_available(old(self)@, ip, available));
                false
            },
        }
    }

    /// Records what a workload event says of the replicas behind `ip`:
    /// the backends are available iff there is at least one replica.
    pub fn apply_workload_update(&mut self, ip: u32, replicas: i32) -> (found: bool)
        requires
            old(self).wf(),
        ensures
            final(self).wf(),
            found == old(self)@.contains_key(ip),
            final(self)@ == set_available(old(self)@, ip, replicas >= 1),
            final(self).key_seq() == old(self).key_seq(),
            found ==> final(self)@[ip].backend_available == (replicas >= 1),
    {
        self.set_backend_available(ip, replicas >= 1)
    }

    /// Records that a packet for `ip` was seen at `now`.
    pub fn touch(&mut self, ip: u32, now: i64) -> (found: bool)
        requires
            old(self).wf(),
        ensures
            final(self).wf(),
            found == old(self)@.contains_key(ip),
            final(self)@ == touched(old(self)@, ip, now),
            final(self).key_seq() == old(self).key_seq(),
    {
        let updated = match self.services.get(ip) {
            Some(record) => {
                let mut copy = record.duplicate();
                copy.last_packet_time = now;
                Some(copy)
            },
            None => None,
        };
        match updated {
            Some(record) => {
                self.services.insert(ip, record);
                assert(self@ =~= touched(old(self)@, ip, now));
                true
            },
            None => {
                assert(self@ =~= touched(old(self)@, ip, now));
                false
            },
        }
    }

    /// Records that the backends of `ip` were scaled to zero.
    pub fn mark_scaled_down(&mut self, ip: u32) -> (found: bool)
        requires
            old(self).wf(),
        ensures
            final(self).wf(),
            found == old(self)@.contains_key(ip),
            final(self)@ == set_available(old(self)@, ip, false),
            final(self).key_seq() == old(self).key_seq(),
    {
        self.set_backend_available(ip, false)
    }

    /// Records that the backends of `ip` were asked to come up.
    pub fn mark_scaled_up(&mut self, ip: u32) -> (found: bool)
        requires
            old(self).wf(),
        ensures
            final(self).wf(),
            found == old(self)@.contains_key(ip),
            final(self)@ == set_available(old(self)@, ip, true),
            final(self).key_seq() == old(self).key_seq(),
    {
        self.set_backend_available(ip, true)
    }

    /// The address and flag of every record, in registry order: what the
    /// classifier's table should hold.
    pub fn snapshot_for_sync(&self) -> (snapshot: Vec<(u32, u32)>)
        requires
            self.wf(),
        ensures
            snapshot@.len() == self.key_seq().len(),
            forall|i: int|
                0 <= i < snapshot@.len() ==> (#[trigger] snapshot@[i]).0 == self.key_seq()[i]
                    && snapshot@[i].1 == desired_table(self@)[self.key_seq()[i]],
    {
        proof {
            self.lemma_keys();
        }
        let n = self.services.len();
        let mut snapshot: Vec<(u32, u32)> = Vec::new();
        let mut i: usize = 0;
        while i < n
            invariant
                self.wf(),
                n == self.services.key_seq().len(),
                i <= n,
                snapshot@.len() == i,
                forall|j: int|
                    0 <= j < i ==> (#[trigger] snapshot@[j]).0 == self.services.key_seq()[j]
                        && snapshot@[j].1 == desired_table(self@)[self.services.key_seq()[j]],
            decreases n - i,
        {
            let ip = self.services.key_at(i);
            let record = self.services.value_at(i);
            let flag = if record.backend_available {
                FLAG_AVAILABLE
            } else {
                FLAG_SCALED_DOWN
            };
            snapshot.push((ip, flag));
            i += 1;
        }
        snapshot
    }
}

} // verus!
