use vstd::prelude::*;

verus! {

/// Counters accumulated while a policy replays a trace.
#[derive(Debug, Clone, PartialEq, Eq, Structural)]
pub struct Metrics {
    pub total_requests: u64,
    pub lookup_requests: u64,
    pub cache_hits: u64,
    pub cache_misses: u64,
    pub dram_hits: u64,
    pub flash_hits: u64,
    pub flash_bytes_written: u64,
    pub logical_bytes_admitted: u64,
    pub segment_flushes: u64,
    pub evictions: u64,
}

impl Metrics {
    /// All counters at zero.
    pub open spec fn zero() -> Metrics {
        Metrics {
            total_requests: 0,
            lookup_requests: 0,
            cache_hits: 0,
            cache_misses: 0,
            dram_hits: 0,
            flash_hits: 0,
            flash_bytes_written: 0,
            logical_bytes_admitted: 0,
            segment_flushes: 0,
            evictions: 0,
        }
    }

    /// Lookups split exactly into hits and misses, and hits into DRAM and flash hits.
    pub open spec fn balanced(self) -> bool {
        &&& self.lookup_requests == self.cache_hits + self.cache_misses
        &&& self.cache_hits == self.dram_hits + self.flash_hits
    }

    /// Balanced, and no more lookups than requests.
    pub open spec fn consistent(self) -> bool {
        &&& self.balanced()
        &&& self.lookup_requests <= self.total_requests
    }

    /// Starting from zero, whatever sequence of recording calls is made keeps lookups
    /// split into hits and misses and hits into DRAM and flash hits: zero is balanced,
    /// and each call that the counters have room for keeps it so.
    pub proof fn lemma_records_keep_balance(
        self,
        flash_bytes: u64,
        logical_bytes: u64,
        flushes: u64,
    )
        ensures
            Metrics::zero().balanced(),
            self.balanced() && self.can_record_request() ==> self.with_request().balanced(),
            self.balanced() && self.can_record_dram_hit() ==> self.with_dram_hit().balanced(),
            self.balanced() && self.can_record_flash_hit() ==> self.with_flash_hit().balanced(),
            self.balanced() && self.can_record_miss() ==> self.with_miss().balanced(),
            self.balanced() ==> (Metrics {
                flash_bytes_written: flash_bytes,
                logical_bytes_admitted: logical_bytes,
                segment_flushes: flushes,
                ..self
            }).balanced(),
    {
    }

    /// `after` counts one more request than `self`, one more lookup exactly when the
    /// request was a lookup, and keeps lookups split into hits and misses.
    pub open spec fn counted_once(self, after: Metrics, lookup: bool) -> bool {
        &&& after.total_requests == self.total_requests + 1
        &&& after.lookup_requests == self.lookup_requests + if lookup {
            1int
        } else {
            0int
        }
        &&& self.consistent() ==> after.consistent()
    }

    /// `self` has the request, lookup, hit, miss and eviction counters of `other`.
    pub open spec fn same_request_counts(self, other: Metrics) -> bool {
        &&& self.total_requests == other.total_requests
        &&& self.lookup_requests == other.lookup_requests
        &&& self.cache_hits == other.cache_hits
        &&& self.cache_misses == other.cache_misses
        &&& self.dram_hits == other.dram_hits
        &&& self.flash_hits == other.flash_hits
        &&& self.evictions == other.evictions
    }

    pub open spec fn with_request(self) -> Metrics {
        Metrics { total_requests: (self.total_requests + 1) as u64, ..self }
    }

    pub open spec fn with_dram_hit(self) -> Metrics {
        Metrics {
            lookup_requests: (self.lookup_requests + 1) as u64,
            cache_hits: (self.cache_hits + 1) as u64,
            dram_hits: (self.dram_hits + 1) as u64,
            ..self
        }
    }

    pub open spec fn with_flash_hit(self) -> Metrics {
        Metrics {
            lookup_requests: (self.lookup_requests + 1) as u64,
            cache_hits: (self.cache_hits + 1) as u64,
            flash_hits: (self.flash_hits + 1) as u64,
            ..self
        }
    }

    pub open spec fn with_miss(self) -> Metrics {
        Metrics {
            lookup_requests: (self.lookup_requests + 1) as u64,
            cache_misses: (self.cache_misses + 1) as u64,
            ..self
        }
    }

    pub open spec fn can_record_request(self) -> bool {
        self.total_requests < u64::MAX
    }

    pub open spec fn can_record_dram_hit(self) -> bool {
        &&& self.lookup_requests < u64::MAX
        &&& self.cache_hits < u64::MAX
        &&& self.dram_hits < u64::MAX
    }

    pub open spec fn can_record_flash_hit(self) -> bool {
        &&& self.lookup_requests < u64::MAX
        &&& self.cache_hits < u64::MAX
        &&& self.flash_hits < u64::MAX
    }

    pub open spec fn can_record_miss(self) -> bool {
        &&& self.lookup_requests < u64::MAX
        &&& self.cache_misses < u64::MAX
    }

    pub fn record_request(&mut self)
        requires
            old(self).can_record_request(),
        ensures
            *final(self) == old(self).with_request(),
    {
        self.total_requests += 1;
    }

    pub fn record_dram_hit(&mut self)
        requires
            old(self).can_record_dram_hit(),
        ensures
            *final(self) == old(self).with_dram_hit(),
    {
        self.lookup_requests += 1;
        self.cache_hits += 1;
        self.dram_hits += 1;
    }

    pub fn record_flash_hit(&mut self)
        requires
            old(self).can_record_flash_hit(),
        ensures
            *final(self) == old(self).with_flash_hit(),
    {
        self.lookup_requests += 1;
        self.cache_hits += 1;
        self.flash_hits += 1;
    }

    pub fn record_miss(&mut self)
        requires
            old(self).can_record_miss(),
        ensures
            *final(self) == old(self).with_miss(),
    {
        self.lookup_requests += 1;
        self.cache_misses += 1;
    }

    pub fn absorb_flash_counters(&mut self, flash_bytes: u64, logical_bytes: u64, flushes: u64)
        ensures
            *final(self) == (Metrics {
                flash_bytes_written: flash_bytes,
                logical_bytes_admitted: logical_bytes,
                segment_flushes: flushes,
                ..*old(self)
            }),
    {
        self.flash_bytes_written = flash_bytes;
        self.logical_bytes_admitted = logical_bytes;
        self.segment_flushes = flushes;
    }
}

impl Default for Metrics {
    fn default() -> (m: Metrics)
        ensures
            m == Metrics::zero(),
    {
        Metrics {
            total_requests: 0,
            lookup_requests: 0,
            cache_hits: 0,
            cache_misses: 0,
            dram_hits: 0,
            flash_hits: 0,
            flash_bytes_written: 0,
            logical_bytes_admitted: 0,
            segment_flushes: 0,
            evictions: 0,
        }
    }
}

} // verus!
