use vstd::prelude::*;

use crate::flash::{
    after_delete, after_finish, after_get, after_write, can_finish, can_write, flash_state_wf,
    lemma_finish_rounds_up, lemma_get_delete_keep_wf, lemma_write_accounting,
    lemma_write_keeps_wf, padding, FlashObject, FlashState, SimulatedFlash,
};
use crate::lru::{
    after_insert, has_key, lemma_insert_then_lookup,
    lemma_without_key, lookup, model_of, total_size, touched, unique_keys, without_key,
    CacheValue, Entries, LruCache,
};
use crate::metrics::Metrics;
use crate::policy::{replay_trace, replayed, with_evictions, with_flash_counters, CachePolicy};
use crate::trace::{Operation, TraceEvent};

verus! {

/// Capacities and admission thresholds of the Flashield-lite policy.
#[derive(Debug, Clone, Copy)]
pub struct FlashieldConfig {
    pub dram_capacity: u64,
    pub flash_capacity: u64,
    pub segment_size: u64,
    pub min_reads: u64,
    pub max_updates: u64,
    pub min_age: u64,
}

/// A DRAM object with the features the admission heuristic reads.
#[derive(Debug, Clone, Copy, PartialEq, Eq)]
pub struct TrackedObject {
    pub size: u64,
    pub read_count: u64,
    pub update_count: u64,
    pub first_seen: u64,
    pub admitted: bool,
}

/// Ticks since the object was first seen, zero for a timestamp before that.
pub open spec fn age(o: TrackedObject, timestamp: u64) -> u64 {
    if timestamp >= o.first_seen {
        (timestamp - o.first_seen) as u64
    } else {
        0
    }
}

/// The admission heuristic: a non-empty object not yet on flash, read often enough,
/// updated rarely enough and old enough.
pub open spec fn eligible(o: TrackedObject, timestamp: u64, config: FlashieldConfig) -> bool {
    &&& o.size > 0
    &&& !o.admitted
    &&& o.read_count >= config.min_reads
    &&& o.update_count <= config.max_updates
    &&& age(o, timestamp) >= config.min_age
}

/// Admission needs every threshold at once: an eligible object is not empty, not on
/// flash yet, read at least `min_reads` times, updated at most `max_updates` times, and
/// at least `min_age` ticks old at `timestamp` (ticks since it was first seen, none
/// before that); and an object that meets all of them is eligible.
pub proof fn lemma_eligible_iff_thresholds(o: TrackedObject, timestamp: u64, config: FlashieldConfig)
    ensures
        eligible(o, timestamp, config) <==> {
            &&& o.size > 0
            &&& !o.admitted
            &&& o.read_count >= config.min_reads
            &&& o.update_count <= config.max_updates
            &&& (if timestamp >= o.first_seen {
                timestamp - o.first_seen
            } else {
                0int
            }) >= config.min_age
        },
{
}

/// An object that misses a threshold at `timestamp` (too young, read too rarely,
/// updated too often, empty or already on flash) is not written to flash: offering it
/// changes neither the state nor the counters, and the object stays as it was.
pub proof fn lemma_offer_refuses_below_thresholds(
    p: Progress,
    key: Seq<char>,
    o: TrackedObject,
    timestamp: u64,
)
    requires
        ({
            ||| (timestamp >= o.first_seen && timestamp - o.first_seen < p.state.config.min_age)
            ||| (timestamp < o.first_seen && 0 < p.state.config.min_age)
            ||| o.read_count < p.state.config.min_reads
            ||| o.update_count > p.state.config.max_updates
            ||| o.size == 0
            ||| o.admitted
        }),
    ensures
        offer(p, key, o, timestamp) == (p, o),
{
}

/// An object that meets every threshold at `timestamp` is written to flash when offered:
/// the admitted bytes grow by its size and it comes back marked as admitted.
pub proof fn lemma_offer_admits_at_thresholds(
    p: Progress,
    key: Seq<char>,
    o: TrackedObject,
    timestamp: u64,
)
    requires
        p.state.flash.segment_size > 0,
        can_write(p.state.flash, o.size),
        o.size > 0,
        !o.admitted,
        o.read_count >= p.state.config.min_reads,
        o.update_count <= p.state.config.max_updates,
        timestamp >= o.first_seen + p.state.config.min_age,
    ensures
        offer(p, key, o, timestamp).0.state.flash.admitted == p.state.flash.admitted + o.size,
        offer(p, key, o, timestamp).1 == (TrackedObject { admitted: true, ..o }),
{
    lemma_write_accounting(p.state.flash, key, o.size);
}

impl TrackedObject {
    pub fn new(size: u64, timestamp: u64, update_count: u64) -> (o: Self)
        ensures
            o == (TrackedObject {
                size,
                read_count: 0,
                update_count,
                first_seen: timestamp,
                admitted: false,
            }),
    {
        Self { size, read_count: 0, update_count, first_seen: timestamp, admitted: false }
    }

    pub fn age_at(&self, timestamp: u64) -> (a: u64)
        ensures
            a == age(*self, timestamp),
    {
        timestamp.saturating_sub(self.first_seen)
    }

    pub fn eligible(&self, timestamp: u64, config: FlashieldConfig) -> (b: bool)
        ensures
            b == eligible(*self, timestamp, config),
    {
        self.size > 0 && !self.admitted && self.read_count >= config.min_reads
            && self.update_count <= config.max_updates && self.age_at(timestamp)
            >= config.min_age
    }

    pub proof fn lemma_clone_is_copy(a: TrackedObject, b: TrackedObject)
        requires
            cloned(a, b),
        ensures
            a == b,
    {
        assert(call_ensures(TrackedObject::clone, (&a,), b) ==> b == a);
    }
}

impl CacheValue for TrackedObject {
    open spec fn byte_size(&self) -> u64 {
        self.size
    }

    fn size(&self) -> (s: u64) {
        self.size
    }
}

pub struct FlashieldState {
    pub config: FlashieldConfig,
    pub dram: Entries<TrackedObject>,
    pub flash: FlashState,
}

/// Policy state together with the metrics, while an event is being handled.
pub struct Progress {
    pub state: FlashieldState,
    pub metrics: Metrics,
}

/// Offers `o` to flash: an eligible object is written and marked admitted.
pub open spec fn offer(p: Progress, key: Seq<char>, o: TrackedObject, timestamp: u64) -> (
    Progress,
    TrackedObject,
) {
    if eligible(o, timestamp, p.state.config) {
        let w = after_write(p.state.flash, key, o.size);
        (
            Progress {
                state: FlashieldState { flash: w.0, ..p.state },
                metrics: with_evictions(p.metrics, w.1),
            },
            TrackedObject { admitted: true, ..o },
        )
    } else {
        (p, o)
    }
}

pub open spec fn offer_ok(p: Progress, key: Seq<char>, o: TrackedObject, timestamp: u64) -> bool {
    eligible(o, timestamp, p.state.config) ==> {
        &&& can_write(p.state.flash, o.size)
        &&& p.metrics.evictions + after_write(p.state.flash, key, o.size).1 <= u64::MAX
    }
}

pub open spec fn count_eviction(p: Progress) -> Progress {
    Progress { metrics: with_evictions(p.metrics, 1), ..p }
}

/// Each entry evicted from DRAM, oldest first, is counted and offered to flash.
pub open spec fn offer_evicted(p: Progress, evicted: Entries<TrackedObject>, timestamp: u64) -> Progress
    decreases evicted.len(),
{
    if evicted.len() == 0 {
        p
    } else {
        let q = count_eviction(offer_evicted(p, evicted.drop_last(), timestamp));
        offer(q, evicted.last().0, evicted.last().1, timestamp).0
    }
}

pub open spec fn offer_evicted_ok(
    p: Progress,
    evicted: Entries<TrackedObject>,
    timestamp: u64,
) -> bool
    decreases evicted.len(),
{
    evicted.len() == 0 || {
        let q = offer_evicted(p, evicted.drop_last(), timestamp);
        &&& offer_evicted_ok(p, evicted.drop_last(), timestamp)
        &&& q.metrics.evictions < u64::MAX
        &&& offer_ok(count_eviction(q), evicted.last().0, evicted.last().1, timestamp)
    }
}

/// Stores `o` in DRAM and offers whatever that evicts to flash.
pub open spec fn insert_tracked(p: Progress, key: Seq<char>, o: TrackedObject, timestamp: u64) -> Progress {
    let ins = after_insert(p.state.dram, key, o, p.state.config.dram_capacity);
    offer_evicted(Progress { state: FlashieldState { dram: ins.0, ..p.state }, ..p }, ins.1, timestamp)
}

pub open spec fn insert_tracked_ok(
    p: Progress,
    key: Seq<char>,
    o: TrackedObject,
    timestamp: u64,
) -> bool {
    let ins = after_insert(p.state.dram, key, o, p.state.config.dram_capacity);
    offer_evicted_ok(Progress { state: FlashieldState { dram: ins.0, ..p.state }, ..p }, ins.1, timestamp)
}

/// The object a get hit leaves in DRAM before admission: one more read.
pub open spec fn read_once(o: TrackedObject) -> TrackedObject {
    TrackedObject { read_count: (o.read_count + 1) as u64, ..o }
}

/// An object promoted from flash on a get: already admitted, counted as read enough.
pub open spec fn promoted(size: u64, timestamp: u64, config: FlashieldConfig) -> TrackedObject {
    TrackedObject {
        size,
        read_count: config.min_reads,
        update_count: 0,
        first_seen: timestamp,
        admitted: true,
    }
}

/// The object a set stores: fresh, with one more update than a DRAM copy it replaces.
pub open spec fn set_object(s: FlashieldState, e: TraceEvent) -> TrackedObject {
    TrackedObject {
        size: e.size,
        read_count: 0,
        update_count: match lookup(s.dram, e.key@) {
            Some(o) => (o.update_count + 1) as u64,
            None => 0,
        },
        first_seen: e.timestamp,
        admitted: false,
    }
}

/// The object an update stores: the DRAM copy, or a fresh one, resized, with one more
/// update and no longer admitted.
pub open spec fn update_object(s: FlashieldState, e: TraceEvent) -> TrackedObject {
    let base = match lookup(s.dram, e.key@) {
        Some(o) => o,
        None => TrackedObject {
            size: e.size,
            read_count: 0,
            update_count: 0,
            first_seen: e.timestamp,
            admitted: false,
        },
    };
    TrackedObject {
        size: e.size,
        update_count: (base.update_count + 1) as u64,
        admitted: false,
        ..base
    }
}

/// State and metrics after Flashield-lite handles `e`.
pub open spec fn flashield_step(s: FlashieldState, e: TraceEvent, m: Metrics) -> Progress {
    let k = e.key@;
    let ts = e.timestamp;
    let m = m.with_request();
    match e.op {
        Operation::Get => {
            if has_key(s.dram, k) {
                let p1 = Progress {
                    state: FlashieldState { dram: touched(s.dram, k), ..s },
                    metrics: m.with_dram_hit(),
                };
                let a = offer(p1, k, read_once(lookup(s.dram, k).unwrap()), ts);
                insert_tracked(a.0, k, a.1, ts)
            } else if has_key(s.flash.index, k) {
                let p1 = Progress {
                    state: FlashieldState { flash: after_get(s.flash, k), ..s },
                    metrics: m.with_flash_hit(),
                };
                insert_tracked(p1, k, promoted(lookup(s.flash.index, k).unwrap().size, ts, s.config), ts)
            } else {
                Progress {
                    state: FlashieldState { flash: after_get(s.flash, k), ..s },
                    metrics: m.with_miss(),
                }
            }
        },
        Operation::Put => {
            let p1 = Progress {
                state: FlashieldState {
                    dram: without_key(s.dram, k),
                    flash: after_delete(s.flash, k),
                    ..s
                },
                metrics: m,
            };
            insert_tracked(p1, k, set_object(s, e), ts)
        },
        Operation::Update => {
            let p1 = Progress {
                state: FlashieldState {
                    dram: without_key(s.dram, k),
                    flash: after_delete(s.flash, k),
                    ..s
                },
                metrics: m,
            };
            insert_tracked(p1, k, update_object(s, e), ts)
        },
        Operation::Delete => Progress {
            state: FlashieldState {
                dram: without_key(s.dram, k),
                flash: after_delete(s.flash, k),
                ..s
            },
            metrics: m,
        },
    }
}

/// Handling `e` keeps every counter within `u64`.
pub open spec fn flashield_step_ok(s: FlashieldState, e: TraceEvent, m0: Metrics) -> bool {
    let k = e.key@;
    let ts = e.timestamp;
    let m = m0.with_request();
    &&& m0.can_record_request()
    &&& match e.op {
        Operation::Get => {
            if has_key(s.dram, k) {
                let o = lookup(s.dram, k).unwrap();
                let p1 = Progress {
                    state: FlashieldState { dram: touched(s.dram, k), ..s },
                    metrics: m.with_dram_hit(),
                };
                let a = offer(p1, k, read_once(o), ts);
                &&& m.can_record_dram_hit()
                &&& o.read_count < u64::MAX
                &&& offer_ok(p1, k, read_once(o), ts)
                &&& insert_tracked_ok(a.0, k, a.1, ts)
            } else if has_key(s.flash.index, k) {
                let p1 = Progress {
                    state: FlashieldState { flash: after_get(s.flash, k), ..s },
                    metrics: m.with_flash_hit(),
                };
                &&& m.can_record_flash_hit()
                &&& insert_tracked_ok(
                    p1,
                    k,
                    promoted(lookup(s.flash.index, k).unwrap().size, ts, s.config),
                    ts,
                )
            } else {
                m.can_record_miss()
            }
        },
        Operation::Put => {
            let p1 = Progress {
                state: FlashieldState {
                    dram: without_key(s.dram, k),
                    flash: after_delete(s.flash, k),
                    ..s
                },
                metrics: m,
            };
            &&& (lookup(s.dram, k) matches Some(o) ==> o.update_count < u64::MAX)
            &&& insert_tracked_ok(p1, k, set_object(s, e), ts)
        },
        Operation::Update => {
            let p1 = Progress {
                state: FlashieldState {
                    dram: without_key(s.dram, k),
                    flash: after_delete(s.flash, k),
                    ..s
                },
                metrics: m,
            };
            &&& (lookup(s.dram, k) matches Some(o) ==> o.update_count < u64::MAX)
            &&& insert_tracked_ok(p1, k, update_object(s, e), ts)
        },
        Operation::Delete => true,
    }
}

pub proof fn lemma_offer_evicted_ok_prefix(
    p: Progress,
    evicted: Entries<TrackedObject>,
    timestamp: u64,
    n: int,
)
    requires
        offer_evicted_ok(p, evicted, timestamp),
        0 <= n <= evicted.len(),
    ensures
        offer_evicted_ok(p, evicted.take(n), timestamp),
    decreases evicted.len() - n,
{
    if n == evicted.len() {
        assert(evicted.take(n) =~= evicted);
    } else {
        lemma_offer_evicted_ok_prefix(p, evicted, timestamp, n + 1);
        assert(evicted.take(n + 1).drop_last() =~= evicted.take(n));
    }
}

/// Validity of the abstract state: DRAM within its capacity with unique keys, and
/// valid flash.
pub open spec fn flashield_state_wf(s: FlashieldState) -> bool {
    &&& unique_keys(s.dram)
    &&& total_size(s.dram) <= s.config.dram_capacity
    &&& flash_state_wf(s.flash)
}

/// `after` differs from `before` at most in the eviction count.
pub open spec fn only_evictions_differ(before: Metrics, after: Metrics) -> bool {
    after == Metrics { evictions: after.evictions, ..before }
}

proof fn lemma_offer_evicted_keeps_counters(p: Progress, evicted: Entries<TrackedObject>, ts: u64)
    ensures
        only_evictions_differ(p.metrics, offer_evicted(p, evicted, ts).metrics),
    decreases evicted.len(),
{
    if evicted.len() > 0 {
        lemma_offer_evicted_keeps_counters(p, evicted.drop_last(), ts);
    }
}

/// Offering objects under keys other than `k` never puts `k` on flash.
proof fn lemma_offer_evicted_avoids(
    p: Progress,
    evicted: Entries<TrackedObject>,
    ts: u64,
    k: Seq<char>,
)
    requires
        unique_keys(p.state.flash.index),
        total_size(p.state.flash.index) <= p.state.flash.capacity,
        !has_key(p.state.flash.index, k),
        forall|i: int| 0 <= i < evicted.len() ==> evicted[i].0 != k,
    ensures
        unique_keys(offer_evicted(p, evicted, ts).state.flash.index),
        total_size(offer_evicted(p, evicted, ts).state.flash.index) <= offer_evicted(
            p,
            evicted,
            ts,
        ).state.flash.capacity,
        offer_evicted(p, evicted, ts).state.flash.capacity == p.state.flash.capacity,
        !has_key(offer_evicted(p, evicted, ts).state.flash.index, k),
    decreases evicted.len(),
{
    if evicted.len() > 0 {
        lemma_offer_evicted_avoids(p, evicted.drop_last(), ts, k);
        let q = count_eviction(offer_evicted(p, evicted.drop_last(), ts));
        let last = evicted.last();
        if eligible(last.1, ts, q.state.config) && last.1.size > 0 {
            let f = q.state.flash;
            let r = after_insert(f.index, last.0, FlashObject { size: last.1.size }, f.capacity).0;
            lemma_insert_then_lookup(f.index, last.0, FlashObject { size: last.1.size }, f.capacity);
            lemma_without_key(r, k);
            lemma_without_key(f.index, k);
        }
    }
}

proof fn lemma_offer_evicted_keeps_dram(p: Progress, evicted: Entries<TrackedObject>, ts: u64)
    ensures
        offer_evicted(p, evicted, ts).state.dram == p.state.dram,
        offer_evicted(p, evicted, ts).state.config == p.state.config,
    decreases evicted.len(),
{
    if evicted.len() > 0 {
        lemma_offer_evicted_keeps_dram(p, evicted.drop_last(), ts);
    }
}

/// Read after write: a set or update that fits DRAM leaves the new object there, not
/// yet admitted to flash; an update counts one more update of it.
pub proof fn lemma_flashield_write_then_get(s: FlashieldState, e: TraceEvent, m: Metrics)
    requires
        flashield_state_wf(s),
        e.op == Operation::Put || e.op == Operation::Update,
        e.size <= s.config.dram_capacity,
    ensures
        lookup(flashield_step(s, e, m).state.dram, e.key@) == Some(
            if e.op == Operation::Put {
                set_object(s, e)
            } else {
                update_object(s, e)
            },
        ),
{
    let k = e.key@;
    let dram1 = without_key(s.dram, k);
    lemma_without_key(s.dram, k);
    let o = if e.op == Operation::Put {
        set_object(s, e)
    } else {
        update_object(s, e)
    };
    lemma_insert_then_lookup(dram1, k, o, s.config.dram_capacity);
    let p1 = Progress {
        state: FlashieldState { dram: dram1, flash: after_delete(s.flash, k), ..s },
        metrics: m.with_request(),
    };
    let ins = after_insert(dram1, k, o, s.config.dram_capacity);
    lemma_offer_evicted_keeps_dram(
        Progress { state: FlashieldState { dram: ins.0, ..p1.state }, ..p1 },
        ins.1,
        e.timestamp,
    );
}

/// Every request is counted once, and only gets count as lookups, each a hit or a miss.
pub proof fn lemma_flashield_step_counts(s: FlashieldState, e: TraceEvent, m: Metrics)
    requires
        flashield_step_ok(s, e, m),
    ensures
        m.counted_once(flashield_step(s, e, m).metrics, e.op == Operation::Get),
{
    let k = e.key@;
    let ts = e.timestamp;
    let m1 = m.with_request();
    match e.op {
        Operation::Get => {
            if has_key(s.dram, k) {
                let p1 = Progress {
                    state: FlashieldState { dram: touched(s.dram, k), ..s },
                    metrics: m1.with_dram_hit(),
                };
                let a = offer(p1, k, read_once(lookup(s.dram, k).unwrap()), ts);
                let ins = after_insert(a.0.state.dram, k, a.1, s.config.dram_capacity);
                lemma_offer_evicted_keeps_counters(
                    Progress { state: FlashieldState { dram: ins.0, ..a.0.state }, ..a.0 },
                    ins.1,
                    ts,
                );
            } else if has_key(s.flash.index, k) {
                let p1 = Progress {
                    state: FlashieldState { flash: after_get(s.flash, k), ..s },
                    metrics: m1.with_flash_hit(),
                };
                let o = promoted(lookup(s.flash.index, k).unwrap().size, ts, s.config);
                let ins = after_insert(p1.state.dram, k, o, s.config.dram_capacity);
                lemma_offer_evicted_keeps_counters(
                    Progress { state: FlashieldState { dram: ins.0, ..p1.state }, ..p1 },
                    ins.1,
                    ts,
                );
            }
        },
        Operation::Put | Operation::Update => {
            let p1 = Progress {
                state: FlashieldState {
                    dram: without_key(s.dram, k),
                    flash: after_delete(s.flash, k),
                    ..s
                },
                metrics: m1,
            };
            let o = if e.op == Operation::Put {
                set_object(s, e)
            } else {
                update_object(s, e)
            };
            let ins = after_insert(p1.state.dram, k, o, s.config.dram_capacity);
            lemma_offer_evicted_keeps_counters(
                Progress { state: FlashieldState { dram: ins.0, ..p1.state }, ..p1 },
                ins.1,
                ts,
            );
        },
        Operation::Delete => {},
    }
}

/// Set, update and delete invalidate any flash copy of their key.
pub proof fn lemma_flashield_write_invalidates_flash(s: FlashieldState, e: TraceEvent, m: Metrics)
    requires
        flashield_state_wf(s),
        e.op != Operation::Get,
    ensures
        !has_key(flashield_step(s, e, m).state.flash.index, e.key@),
{
    let k = e.key@;
    let ts = e.timestamp;
    lemma_without_key(s.flash.index, k);
    lemma_without_key(s.dram, k);
    if e.op != Operation::Delete {
        let p1 = Progress {
            state: FlashieldState {
                dram: without_key(s.dram, k),
                flash: after_delete(s.flash, k),
                ..s
            },
            metrics: m.with_request(),
        };
        let o = if e.op == Operation::Put {
            set_object(s, e)
        } else {
            update_object(s, e)
        };
        let ins = after_insert(p1.state.dram, k, o, s.config.dram_capacity);
        let base = without_key(p1.state.dram, k);
        lemma_without_key(p1.state.dram, k);
        if o.size <= s.config.dram_capacity {
            crate::lru::lemma_evict_count(base, (s.config.dram_capacity - o.size) as nat);
        }
        assert forall|i: int| 0 <= i < ins.1.len() implies ins.1[i].0 != k by {
            assert(ins.1[i] == base[i]);
            assert(0 <= i < base.len());
        }
        lemma_offer_evicted_avoids(
            Progress { state: FlashieldState { dram: ins.0, ..p1.state }, ..p1 },
            ins.1,
            ts,
            k,
        );
    }
}

/// A deleted key is gone from DRAM and from flash.
pub proof fn lemma_flashield_delete_forgets(s: FlashieldState, e: TraceEvent, m: Metrics)
    requires
        flashield_state_wf(s),
        e.op == Operation::Delete,
    ensures
        !has_key(flashield_step(s, e, m).state.dram, e.key@),
        !has_key(flashield_step(s, e, m).state.flash.index, e.key@),
{
    lemma_without_key(s.dram, e.key@);
    lemma_without_key(s.flash.index, e.key@);
}

/// A get right after a delete of the same key is a miss.
pub proof fn lemma_flashield_delete_then_get_misses(
    s: FlashieldState,
    delete: TraceEvent,
    get: TraceEvent,
    m: Metrics,
    m1: Metrics,
)
    requires
        flashield_state_wf(s),
        delete.op == Operation::Delete,
        get.op == Operation::Get,
        get.key@ == delete.key@,
    ensures
        flashield_step(flashield_step(s, delete, m).state, get, m1).metrics
            == m1.with_request().with_miss(),
{
    lemma_without_key(s.dram, delete.key@);
    lemma_without_key(s.flash.index, delete.key@);
}

proof fn lemma_offer_keeps_padding(p: Progress, key: Seq<char>, o: TrackedObject, ts: u64)
    requires
        flash_state_wf(p.state.flash),
        offer_ok(p, key, o, ts),
    ensures
        flash_state_wf(offer(p, key, o, ts).0.state.flash),
        padding(offer(p, key, o, ts).0.state.flash) == padding(p.state.flash),
        offer(p, key, o, ts).0.state.flash.segment_size == p.state.flash.segment_size,
{
    if eligible(o, ts, p.state.config) {
        lemma_write_accounting(p.state.flash, key, o.size);
        lemma_write_keeps_wf(p.state.flash, key, o.size);
    }
}

proof fn lemma_offer_evicted_keeps_padding(p: Progress, evicted: Entries<TrackedObject>, ts: u64)
    requires
        flash_state_wf(p.state.flash),
        offer_evicted_ok(p, evicted, ts),
    ensures
        flash_state_wf(offer_evicted(p, evicted, ts).state.flash),
        padding(offer_evicted(p, evicted, ts).state.flash) == padding(p.state.flash),
        offer_evicted(p, evicted, ts).state.flash.segment_size == p.state.flash.segment_size,
    decreases evicted.len(),
{
    if evicted.len() > 0 {
        let prefix = evicted.drop_last();
        lemma_offer_evicted_keeps_padding(p, prefix, ts);
        let q = count_eviction(offer_evicted(p, prefix, ts));
        lemma_offer_keeps_padding(q, evicted.last().0, evicted.last().1, ts);
    }
}

/// Handling an event neither pads flash nor changes its segment size: admissions add
/// their bytes to the admitted ones and to the bytes written or buffered alike.
pub proof fn lemma_flashield_step_keeps_padding(s: FlashieldState, e: TraceEvent, m: Metrics)
    requires
        flashield_state_wf(s),
        flashield_step_ok(s, e, m),
    ensures
        flash_state_wf(flashield_step(s, e, m).state.flash),
        padding(flashield_step(s, e, m).state.flash) == padding(s.flash),
        flashield_step(s, e, m).state.flash.segment_size == s.flash.segment_size,
{
    let k = e.key@;
    let ts = e.timestamp;
    let c = s.config.dram_capacity;
    let m1 = m.with_request();
    lemma_get_delete_keep_wf(s.flash, k);
    match e.op {
        Operation::Get => {
            if has_key(s.dram, k) {
                let p1 = Progress {
                    state: FlashieldState { dram: touched(s.dram, k), ..s },
                    metrics: m1.with_dram_hit(),
                };
                let o = read_once(lookup(s.dram, k).unwrap());
                lemma_offer_keeps_padding(p1, k, o, ts);
                let a = offer(p1, k, o, ts);
                let ins = after_insert(a.0.state.dram, k, a.1, c);
                lemma_offer_evicted_keeps_padding(
                    Progress { state: FlashieldState { dram: ins.0, ..a.0.state }, ..a.0 },
                    ins.1,
                    ts,
                );
            } else if has_key(s.flash.index, k) {
                let p1 = Progress {
                    state: FlashieldState { flash: after_get(s.flash, k), ..s },
                    metrics: m1.with_flash_hit(),
                };
                let o = promoted(lookup(s.flash.index, k).unwrap().size, ts, s.config);
                let ins = after_insert(s.dram, k, o, c);
                lemma_offer_evicted_keeps_padding(
                    Progress { state: FlashieldState { dram: ins.0, ..p1.state }, ..p1 },
                    ins.1,
                    ts,
                );
            }
        },
        Operation::Put | Operation::Update => {
            let dram1 = without_key(s.dram, k);
            let p1 = Progress {
                state: FlashieldState { dram: dram1, flash: after_delete(s.flash, k), ..s },
                metrics: m1,
            };
            let o = if e.op == Operation::Put {
                set_object(s, e)
            } else {
                update_object(s, e)
            };
            let ins = after_insert(dram1, k, o, c);
            lemma_offer_evicted_keeps_padding(
                Progress { state: FlashieldState { dram: ins.0, ..p1.state }, ..p1 },
                ins.1,
                ts,
            );
        },
        Operation::Delete => {},
    }
}

proof fn lemma_flashield_replay_prefix(
    p0: FlashieldLiteCache,
    m0: Metrics,
    events: Seq<TraceEvent>,
    states: Seq<(FlashieldLiteCache, Metrics)>,
    n: int,
)
    requires
        p0.inv(),
        replay_trace(p0, m0, events, states),
        0 <= n <= events.len(),
    ensures
        flash_state_wf(states[n].0@.flash),
        padding(states[n].0@.flash) == padding(p0@.flash),
        states[n].0@.flash.segment_size == p0@.flash.segment_size,
    decreases n,
{
    if n == 0 {
        p0.lemma_inv_state();
    } else {
        lemma_flashield_replay_prefix(p0, m0, events, states, n - 1);
        let st = states[n - 1];
        st.0.lemma_inv_state();
        lemma_flashield_step_keeps_padding(st.0@, events[n - 1], st.1);
    }
}

/// A run of Flashield-lite from flash with nothing padded, as `new` makes it, charges
/// whole segments once it ends: the segments written are the admitted bytes divided by
/// the segment size, rounded up, so less than one segment of padding is written.
pub proof fn lemma_flashield_run_rounds_up(
    p0: FlashieldLiteCache,
    m0: Metrics,
    events: Seq<TraceEvent>,
    p1: FlashieldLiteCache,
    m1: Metrics,
    p2: FlashieldLiteCache,
    m2: Metrics,
)
    requires
        p0.inv(),
        padding(p0@.flash) == 0,
        replayed(p0, m0, events, p1, m1),
        p1.can_finish(m1),
        p1.finished(m1, p2, m2),
    ensures
        m2.logical_bytes_admitted == p1@.flash.admitted,
        m2.segment_flushes == (m2.logical_bytes_admitted + p0@.flash.segment_size - 1) / (
        p0@.flash.segment_size as int),
        m2.flash_bytes_written == m2.segment_flushes * p0@.flash.segment_size,
        m2.logical_bytes_admitted <= m2.flash_bytes_written < m2.logical_bytes_admitted
            + p0@.flash.segment_size,
{
    let states = choose|states: Seq<(FlashieldLiteCache, Metrics)>|
        replay_trace(p0, m0, events, states) && #[trigger] states.last() == (p1, m1);
    lemma_flashield_replay_prefix(p0, m0, events, states, events.len() as int);
    p0.lemma_inv_state();
    lemma_finish_rounds_up(p1@.flash);
}

/// DRAM cache that admits stable, read-worthy objects to simulated flash.
#[derive(Debug)]
pub struct FlashieldLiteCache {
    config: FlashieldConfig,
    dram: LruCache<TrackedObject>,
    flash: SimulatedFlash,
}

impl View for FlashieldLiteCache {
    type V = FlashieldState;

    closed spec fn view(&self) -> FlashieldState {
        FlashieldState { config: self.config, dram: self.dram.entries(), flash: self.flash@ }
    }
}

impl FlashieldLiteCache {
    pub closed spec fn parts_wf(&self) -> bool {
        &&& self.dram.wf()
        &&& self.flash.wf()
        &&& self.dram.capacity() == self.config.dram_capacity
    }

    pub proof fn lemma_inv_state(&self)
        requires
            self.inv(),
        ensures
            flashield_state_wf(self@),
    {
    }

    pub fn new(config: FlashieldConfig) -> (c: Self)
        requires
            config.segment_size > 0,
        ensures
            c.inv(),
            c@.config == config,
            c@.dram == Seq::<(Seq<char>, TrackedObject)>::empty(),
            c@.flash == (FlashState {
                index: Seq::empty(),
                capacity: config.flash_capacity,
                segment_size: config.segment_size,
                buffered: 0,
                written: 0,
                admitted: 0,
                flushes: 0,
                finalized: false,
            }),
    {
        Self {
            config,
            dram: LruCache::new(config.dram_capacity),
            flash: SimulatedFlash::new(config.flash_capacity, config.segment_size),
        }
    }

    /// Offers `object` to flash; `None` when a counter would leave `u64`.
    fn try_admit(
        &mut self,
        key: String,
        object: TrackedObject,
        timestamp: u64,
        metrics: &mut Metrics,
    ) -> (r: Option<TrackedObject>)
        requires
            old(self).inv(),
        ensures
            final(self).inv(),
            r is Some <==> offer_ok(
                (Progress { state: old(self)@, metrics: *old(metrics) }),
                key@,
                object,
                timestamp,
            ),
            r matches Some(o) ==> ((Progress { state: final(self)@, metrics: *final(metrics) }), o)
                == offer((Progress { state: old(self)@, metrics: *old(metrics) }), key@, object, timestamp),
    {
        let mut object = object;
        if object.eligible(timestamp, self.config) {
            if !self.flash.can_write_now(object.size) {
                return None;
            }
            let evicted = self.flash.write_object(key, object.size) as u64;
            if metrics.evictions > u64::MAX - evicted {
                return None;
            }
            metrics.evictions = metrics.evictions + evicted;
            object.admitted = true;
        }
        Some(object)
    }

    /// Stores `object` in DRAM and offers what that evicts to flash; `false` when a
    /// counter would leave `u64`.
    fn insert_tracked(
        &mut self,
        key: String,
        object: TrackedObject,
        timestamp: u64,
        metrics: &mut Metrics,
    ) -> (ok: bool)
        requires
            old(self).inv(),
        ensures
            final(self).inv(),
            ok == insert_tracked_ok(
                (Progress { state: old(self)@, metrics: *old(metrics) }),
                key@,
                object,
                timestamp,
            ),
            ok ==> (Progress { state: final(self)@, metrics: *final(metrics) }) == insert_tracked(
                (Progress { state: old(self)@, metrics: *old(metrics) }),
                key@,
                object,
                timestamp,
            ),
    {
        let ghost p0 = Progress { state: self@, metrics: *metrics };
        let ghost kv = key@;
        let ghost ins = after_insert(self@.dram, key@, object, self.config.dram_capacity);
        let evicted = self.dram.insert(key, object);
        let ghost start = Progress { state: FlashieldState { dram: ins.0, ..p0.state }, ..p0 };
        let ghost ev = ins.1;
        assert(ev.take(0) =~= Seq::<(Seq<char>, TrackedObject)>::empty());
        let mut i: usize = 0;
        while i < evicted.len()
            invariant
                p0 == (Progress { state: old(self)@, metrics: *old(metrics) }),
                kv == key@,
                insert_tracked_ok(p0, kv, object, timestamp) == offer_evicted_ok(
                    start,
                    ev,
                    timestamp,
                ),
                self.inv(),
                i <= evicted@.len(),
                model_of(evicted@) == ev,
                offer_evicted_ok(start, ev.take(i as int), timestamp),
                (Progress { state: self@, metrics: *metrics }) == offer_evicted(
                    start,
                    ev.take(i as int),
                    timestamp,
                ),
            decreases evicted@.len() - i,
        {
            proof {
                assert(ev.take(i + 1).drop_last() =~= ev.take(i as int));
                assert(ev.take(i + 1).last() == ev[i as int]);
                if offer_evicted_ok(start, ev, timestamp) {
                    lemma_offer_evicted_ok_prefix(start, ev, timestamp, i + 1);
                }
                let q = offer_evicted(start, ev.take(i as int), timestamp);
                assert(offer_evicted_ok(start, ev.take(i + 1), timestamp) == (offer_evicted_ok(
                    start,
                    ev.take(i as int),
                    timestamp,
                ) && q.metrics.evictions < u64::MAX && offer_ok(
                    count_eviction(q),
                    ev[i as int].0,
                    ev[i as int].1,
                    timestamp,
                )));
            }
            if metrics.evictions == u64::MAX {
                return false;
            }
            let evicted_key = evicted[i].0.clone();
            let evicted_object = evicted[i].1;
            metrics.evictions = metrics.evictions + 1;
            if self.try_admit(evicted_key, evicted_object, timestamp, metrics).is_none() {
                return false;
            }
            i += 1;
        }
        assert(ev.take(i as int) =~= ev);
        true
    }
}

impl CachePolicy for FlashieldLiteCache {
    open spec fn inv(&self) -> bool {
        self.parts_wf()
    }

    open spec fn can_handle(&self, event: TraceEvent, metrics: Metrics) -> bool {
        flashield_step_ok(self@, event, metrics)
    }

    open spec fn handled(
        &self,
        event: TraceEvent,
        metrics: Metrics,
        after: Self,
        metrics_after: Metrics,
    ) -> bool {
        Progress { state: after@, metrics: metrics_after } == flashield_step(self@, event, metrics)
    }

    open spec fn can_finish(&self, metrics: Metrics) -> bool {
        can_finish(self@.flash)
    }

    proof fn lemma_handled_counts(
        &self,
        event: TraceEvent,
        metrics: Metrics,
        after: Self,
        metrics_after: Metrics,
    ) {
        lemma_flashield_step_counts(self@, event, metrics);
    }

    proof fn lemma_finish_keeps_counts(
        &self,
        metrics: Metrics,
        after: Self,
        metrics_after: Metrics,
    ) {
    }

    fn check_finish(&self, metrics: &Metrics) -> (b: bool) {
        self.flash.can_finish_now()
    }

    open spec fn finished(&self, metrics: Metrics, after: Self, metrics_after: Metrics) -> bool {
        &&& after@ == (FlashieldState { flash: after_finish(self@.flash), ..self@ })
        &&& metrics_after == with_flash_counters(metrics, after_finish(self@.flash))
    }

    fn try_handle(&mut self, event: &TraceEvent, metrics: &mut Metrics) -> (ok: bool) {
        proof {
            lemma_without_key(self@.dram, event.key@);
            lemma_without_key(self@.flash.index, event.key@);
        }
        let ghost s = self@;
        if metrics.total_requests == u64::MAX {
            return false;
        }
        metrics.record_request();
        match event.op {
            Operation::Get => {
                if let Some(object) = self.dram.get(event.key.as_str()) {
                    proof {
                        TrackedObject::lemma_clone_is_copy(lookup(s.dram, event.key@).unwrap(), object);
                    }
                    if metrics.lookup_requests == u64::MAX || metrics.cache_hits == u64::MAX
                        || metrics.dram_hits == u64::MAX || object.read_count == u64::MAX {
                        return false;
                    }
                    metrics.record_dram_hit();
                    let mut object = object;
                    object.read_count = object.read_count + 1;
                    match self.try_admit(event.key.clone(), object, event.timestamp, metrics) {
                        Some(object) => self.insert_tracked(
                            event.key.clone(),
                            object,
                            event.timestamp,
                            metrics,
                        ),
                        None => false,
                    }
                } else if let Some(object) = self.flash.get(event.key.as_str()) {
                    if metrics.lookup_requests == u64::MAX || metrics.cache_hits == u64::MAX
                        || metrics.flash_hits == u64::MAX {
                        return false;
                    }
                    metrics.record_flash_hit();
                    let mut promoted = TrackedObject::new(object.size(), event.timestamp, 0);
                    promoted.read_count = self.config.min_reads;
                    promoted.admitted = true;
                    self.insert_tracked(event.key.clone(), promoted, event.timestamp, metrics)
                } else {
                    if metrics.lookup_requests == u64::MAX || metrics.cache_misses == u64::MAX {
                        return false;
                    }
                    metrics.record_miss();
                    true
                }
            },
            Operation::Put => {
                self.flash.delete(event.key.as_str());
                let update_count = match self.dram.remove(event.key.as_str()) {
                    Some(object) => {
                        if object.update_count == u64::MAX {
                            return false;
                        }
                        object.update_count + 1
                    },
                    None => 0,
                };
                let object = TrackedObject::new(event.size, event.timestamp, update_count);
                self.insert_tracked(event.key.clone(), object, event.timestamp, metrics)
            },
            Operation::Update => {
                self.flash.delete(event.key.as_str());
                let mut object = match self.dram.remove(event.key.as_str()) {
                    Some(object) => object,
                    None => TrackedObject::new(event.size, event.timestamp, 0),
                };
                if object.update_count == u64::MAX {
                    return false;
                }
                object.size = event.size;
                object.update_count = object.update_count + 1;
                object.admitted = false;
                self.insert_tracked(event.key.clone(), object, event.timestamp, metrics)
            },
            Operation::Delete => {
                self.dram.remove(event.key.as_str());
                self.flash.delete(event.key.as_str());
                true
            },
        }
    }

    fn finish(&mut self, metrics: &mut Metrics) {
        self.flash.finish();
        metrics.absorb_flash_counters(
            self.flash.flash_bytes_written(),
            self.flash.logical_bytes_admitted(),
            self.flash.segment_flushes(),
        );
    }
}

} // verus!
