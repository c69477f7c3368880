use vstd::prelude::*;

pub use crate::flashield::{FlashieldConfig, FlashieldLiteCache};

use crate::flash::{
    after_delete, after_finish, after_get, after_write, can_finish, can_write,
    flash_state_wf, lemma_finish_rounds_up, lemma_get_delete_keep_wf, lemma_write_accounting,
    lemma_write_keeps_wf, padding, FlashObject, FlashState, SimulatedFlash,
};
use crate::lru::{
    after_insert, has_key, lemma_insert_then_lookup,
    lemma_without_key, lookup, model_of, total_size, touched, unique_keys, without_key,
    CacheValue, Entries, LruCache,
};
use crate::metrics::Metrics;
use crate::trace::{Operation, TraceEvent};

verus! {

/// A cache policy that replays trace events and accounts for them in `Metrics`.
pub trait CachePolicy: Sized {
    /// The invariant of the policy's state.
    spec fn inv(&self) -> bool;

    /// `event` can be handled without any counter leaving `u64`.
    spec fn can_handle(&self, event: TraceEvent, metrics: Metrics) -> bool;

    /// `after` and `metrics_after` are what handling `event` leaves.
    spec fn handled(
        &self,
        event: TraceEvent,
        metrics: Metrics,
        after: Self,
        metrics_after: Metrics,
    ) -> bool;

    /// The run can end without any counter leaving `u64`.
    spec fn can_finish(&self, metrics: Metrics) -> bool;

    /// `after` and `metrics_after` are what ending the run leaves.
    spec fn finished(&self, metrics: Metrics, after: Self, metrics_after: Metrics) -> bool;

    /// Handling an event counts it as one request, and as one lookup exactly when it is
    /// a get; lookups stay split into hits and misses.
    proof fn lemma_handled_counts(
        &self,
        event: TraceEvent,
        metrics: Metrics,
        after: Self,
        metrics_after: Metrics,
    )
        requires
            self.inv(),
            self.can_handle(event, metrics),
            self.handled(event, metrics, after, metrics_after),
        ensures
            metrics.counted_once(metrics_after, event.op == Operation::Get),
    ;

    /// Ending the run leaves every request, lookup, hit, miss and eviction counter as
    /// it was.
    proof fn lemma_finish_keeps_counts(&self, metrics: Metrics, after: Self, metrics_after: Metrics)
        requires
            self.inv(),
            self.can_finish(metrics),
            self.finished(metrics, after, metrics_after),
        ensures
            metrics_after.same_request_counts(metrics),
    ;

    fn check_finish(&self, metrics: &Metrics) -> (b: bool)
        requires
            self.inv(),
        ensures
            b == self.can_finish(*metrics),
    ;

    /// Handles `event` when no counter would leave `u64`, and says whether it could.
    /// When it could not, the policy and the metrics are left valid but part way
    /// through the event.
    fn try_handle(&mut self, event: &TraceEvent, metrics: &mut Metrics) -> (ok: bool)
        requires
            old(self).inv(),
        ensures
            final(self).inv(),
            ok == old(self).can_handle(*event, *old(metrics)),
            ok ==> old(self).handled(*event, *old(metrics), *final(self), *final(metrics)),
    ;

    fn handle(&mut self, event: &TraceEvent, metrics: &mut Metrics)
        requires
            old(self).inv(),
            old(self).can_handle(*event, *old(metrics)),
        ensures
            final(self).inv(),
            old(self).handled(*event, *old(metrics), *final(self), *final(metrics)),
    {
        self.try_handle(event, metrics);
    }

    fn finish(&mut self, metrics: &mut Metrics)
        requires
            old(self).inv(),
            old(self).can_finish(*old(metrics)),
        ensures
            final(self).inv(),
            old(self).finished(*old(metrics), *final(self), *final(metrics)),
    ;
}

/// `states` are the policy states and metrics before each event of `events` and after
/// the last one: each event can be handled and is handled in turn.
pub open spec fn replay_trace<P: CachePolicy>(
    p0: P,
    m0: Metrics,
    events: Seq<TraceEvent>,
    states: Seq<(P, Metrics)>,
) -> bool {
    &&& states.len() == events.len() + 1
    &&& states[0] == (p0, m0)
    &&& forall|i: int|
        0 <= i < events.len() ==> {
            &&& (#[trigger] states[i]).0.inv()
            &&& states[i].0.can_handle(events[i], states[i].1)
            &&& states[i].0.handled(events[i], states[i].1, states[i + 1].0, states[i + 1].1)
        }
}

/// `p1` and `m1` are what handling `events` one after another, from `p0` and `m0`,
/// leaves.
pub open spec fn replayed<P: CachePolicy>(
    p0: P,
    m0: Metrics,
    events: Seq<TraceEvent>,
    p1: P,
    m1: Metrics,
) -> bool {
    exists|states: Seq<(P, Metrics)>|
        replay_trace(p0, m0, events, states) && #[trigger] states.last() == (p1, m1)
}

/// Handles `events` in order and returns how many were handled. It stops at the first
/// event that would take a counter out of `u64`; the policy and the metrics are then
/// left valid but part way through that event.
pub fn replay<P: CachePolicy>(policy: &mut P, events: &Vec<TraceEvent>, metrics: &mut Metrics) -> (handled: usize)
    requires
        old(policy).inv(),
    ensures
        final(policy).inv(),
        handled <= events@.len(),
        handled == events@.len() ==> replayed(
            *old(policy),
            *old(metrics),
            events@,
            *final(policy),
            *final(metrics),
        ),
        handled < events@.len() ==> exists|p: P, m: Metrics|
            #[trigger] replayed(*old(policy), *old(metrics), events@.take(handled as int), p, m)
                && p.inv() && !p.can_handle(events@[handled as int], m),
{
    let mut i: usize = 0;
    let ghost mut states: Seq<(P, Metrics)> = seq![(*policy, *metrics)];
    assert(events@.take(0) =~= Seq::<TraceEvent>::empty());
    while i < events.len()
        invariant
            policy.inv(),
            i <= events@.len(),
            replay_trace(*old(policy), *old(metrics), events@.take(i as int), states),
            states.last() == (*policy, *metrics),
        decreases events@.len() - i,
    {
        let ghost before = states;
        let ghost p = *policy;
        let ghost m = *metrics;
        if !policy.try_handle(&events[i], metrics) {
            assert(replayed(*old(policy), *old(metrics), events@.take(i as int), p, m));
            return i;
        }
        proof {
            states = before.push((*policy, *metrics));
            let done = events@.take(i + 1);
            assert forall|j: int| 0 <= j < done.len() implies {
                &&& (#[trigger] states[j]).0.inv()
                &&& states[j].0.can_handle(done[j], states[j].1)
                &&& states[j].0.handled(done[j], states[j].1, states[j + 1].0, states[j + 1].1)
            } by {
                assert(states[j] == before[j]);
                if j < i {
                    assert(states[j + 1] == before[j + 1]);
                    assert(done[j] == events@.take(i as int)[j]);
                }
            }
        }
        i += 1;
    }
    assert(events@.take(i as int) =~= events@);
    i
}

/// How many of `events` are gets.
pub open spec fn gets_in(events: Seq<TraceEvent>) -> nat
    decreases events.len(),
{
    if events.len() == 0 {
        0
    } else {
        gets_in(events.drop_last()) + if events.last().op == Operation::Get {
            1nat
        } else {
            0nat
        }
    }
}

proof fn lemma_replay_prefix_counts<P: CachePolicy>(
    p0: P,
    m0: Metrics,
    events: Seq<TraceEvent>,
    states: Seq<(P, Metrics)>,
    n: int,
)
    requires
        replay_trace(p0, m0, events, states),
        0 <= n <= events.len(),
    ensures
        states[n].1.total_requests == m0.total_requests + n,
        states[n].1.lookup_requests == m0.lookup_requests + gets_in(events.take(n)),
        m0.consistent() ==> states[n].1.consistent(),
    decreases n,
{
    if n == 0 {
        assert(events.take(0) =~= Seq::<TraceEvent>::empty());
    } else {
        lemma_replay_prefix_counts(p0, m0, events, states, n - 1);
        let s = states[n - 1];
        assert(s == states[n - 1]);
        s.0.lemma_handled_counts(events[n - 1], s.1, states[n].0, states[n].1);
        assert(events.take(n).drop_last() =~= events.take(n - 1));
    }
}

/// Over a whole replay, every event counts as one request and every get as one
/// lookup; lookups stay split into hits and misses.
pub proof fn lemma_replay_counts<P: CachePolicy>(
    p0: P,
    m0: Metrics,
    events: Seq<TraceEvent>,
    p1: P,
    m1: Metrics,
)
    requires
        replayed(p0, m0, events, p1, m1),
    ensures
        m1.total_requests == m0.total_requests + events.len(),
        m1.lookup_requests == m0.lookup_requests + gets_in(events),
        m0.consistent() ==> m1.consistent(),
{
    let states = choose|states: Seq<(P, Metrics)>|
        replay_trace(p0, m0, events, states) && #[trigger] states.last() == (p1, m1);
    lemma_replay_prefix_counts(p0, m0, events, states, events.len() as int);
    assert(events.take(events.len() as int) =~= events);
}

/// Replays `events` and ends the run. Fails with "counter overflow" when a counter would
/// leave `u64` on some event or while the run ends; the policy and the metrics are
/// then left valid, and where the run stopped is stated.
pub fn run_to_end<P: CachePolicy>(
    policy: &mut P,
    events: &Vec<TraceEvent>,
    metrics: &mut Metrics,
) -> (r: Result<(), String>)
    requires
        old(policy).inv(),
    ensures
        final(policy).inv(),
        match r {
            Ok(()) => {
                &&& exists|p: P, m: Metrics|
                    #[trigger] replayed(*old(policy), *old(metrics), events@, p, m) && p.inv()
                        && p.can_finish(m) && p.finished(m, *final(policy), *final(metrics))
                &&& final(metrics).total_requests == old(metrics).total_requests + events@.len()
                &&& final(metrics).lookup_requests == old(metrics).lookup_requests + gets_in(
                    events@,
                )
                &&& old(metrics).consistent() ==> final(metrics).consistent()
            },
            Err(e) => {
                &&& e@ == "counter overflow"@
                &&& stops_early(*old(policy), *old(metrics), events@)
            },
        },
{
    let handled = replay(policy, events, metrics);
    if handled < events.len() {
        return Err("counter overflow".to_owned());
    }
    if !policy.check_finish(metrics) {
        return Err("counter overflow".to_owned());
    }
    let ghost p = *policy;
    let ghost m = *metrics;
    proof {
        lemma_replay_counts(*old(policy), *old(metrics), events@, p, m);
    }
    policy.finish(metrics);
    proof {
        p.lemma_finish_keeps_counts(m, *policy, *metrics);
    }
    Ok(())
}

/// A run from `p0` and `m0` over `events` cannot get to its end: some event, after the
/// ones before it were handled, would take a counter out of `u64`, or ending the run
/// would.
pub open spec fn stops_early<P: CachePolicy>(p0: P, m0: Metrics, events: Seq<TraceEvent>) -> bool {
    ||| exists|n: int, p: P, m: Metrics|
        0 <= n < events.len() && #[trigger] replayed(p0, m0, events.take(n), p, m) && p.inv()
            && !p.can_handle(events[n], m)
    ||| exists|p: P, m: Metrics|
        #[trigger] replayed(p0, m0, events, p, m) && p.inv() && !p.can_finish(m)
}

/// A run from `p0` and `m0` over `events` gets to its end and leaves `m`.
pub open spec fn runs_to_end<P: CachePolicy>(
    p0: P,
    m0: Metrics,
    events: Seq<TraceEvent>,
    m: Metrics,
) -> bool {
    exists|p1: P, m1: Metrics, p2: P|
        #![trigger replayed(p0, m0, events, p1, m1), p1.finished(m1, p2, m)]
        replayed(p0, m0, events, p1, m1) && p1.inv() && p1.can_finish(m1) && p1.finished(
            m1,
            p2,
            m,
        )
}

/// An object cached in DRAM; only its size matters.
#[derive(Debug, Clone, Copy, PartialEq, Eq)]
pub struct Object {
    pub size: u64,
}

impl Object {
    pub fn new(size: u64) -> (o: Self)
        ensures
            o == (Object { size }),
    {
        Self { size }
    }

    pub proof fn lemma_clone_is_copy(a: Object, b: Object)
        requires
            cloned(a, b),
        ensures
            a == b,
    {
        assert(call_ensures(Object::clone, (&a,), b) ==> b == a);
    }
}

impl CacheValue for Object {
    open spec fn byte_size(&self) -> u64 {
        self.size
    }

    fn size(&self) -> (s: u64) {
        self.size
    }
}

/// Metrics with `n` more evictions.
pub open spec fn with_evictions(m: Metrics, n: nat) -> Metrics {
    Metrics { evictions: (m.evictions + n) as u64, ..m }
}

// ------------------------------------------------------------------------------------------
// DRAM-only LRU
// ------------------------------------------------------------------------------------------

pub struct DramState {
    pub capacity: u64,
    pub entries: Entries<Object>,
}

/// State and metrics after the DRAM-only cache handles `e`: a get hits only what is
/// resident, set and update store the object, delete drops it.
pub open spec fn dram_step(s: DramState, e: TraceEvent, m: Metrics) -> (DramState, Metrics) {
    let m = m.with_request();
    let k = e.key@;
    match e.op {
        Operation::Get => {
            if has_key(s.entries, k) {
                (DramState { entries: touched(s.entries, k), ..s }, m.with_dram_hit())
            } else {
                (s, m.with_miss())
            }
        },
        Operation::Put | Operation::Update => {
            let ins = after_insert(s.entries, k, Object { size: e.size }, s.capacity);
            (DramState { entries: ins.0, ..s }, with_evictions(m, ins.1.len()))
        },
        Operation::Delete => (DramState { entries: without_key(s.entries, k), ..s }, m),
    }
}

/// Handling `e` keeps every counter within `u64`.
pub open spec fn dram_step_ok(s: DramState, e: TraceEvent, m: Metrics) -> bool {
    &&& m.can_record_request()
    &&& match e.op {
        Operation::Get => if has_key(s.entries, e.key@) {
            m.can_record_dram_hit()
        } else {
            m.can_record_miss()
        },
        Operation::Put | Operation::Update => m.evictions + after_insert(
            s.entries,
            e.key@,
            Object { size: e.size },
            s.capacity,
        ).1.len() <= u64::MAX,
        Operation::Delete => true,
    }
}

/// Every request is counted once, and only gets count as lookups, each a hit or a miss.
pub proof fn lemma_dram_step_counts(s: DramState, e: TraceEvent, m: Metrics)
    requires
        dram_step_ok(s, e, m),
    ensures
        m.counted_once(dram_step(s, e, m).1, e.op == Operation::Get),
{
}

/// Read after write: a stored object that fits the cache is a hit for the next get.
pub proof fn lemma_dram_write_then_get(s: DramState, e: TraceEvent, m: Metrics)
    requires
        unique_keys(s.entries),
        total_size(s.entries) <= s.capacity,
        e.op == Operation::Put || e.op == Operation::Update,
        e.size <= s.capacity,
    ensures
        lookup(dram_step(s, e, m).0.entries, e.key@) == Some(Object { size: e.size }),
        has_key(dram_step(s, e, m).0.entries, e.key@),
{
    lemma_insert_then_lookup(s.entries, e.key@, Object { size: e.size }, s.capacity);
    lemma_without_key(dram_step(s, e, m).0.entries, e.key@);
}

/// A deleted key is gone.
pub proof fn lemma_dram_delete_forgets(s: DramState, e: TraceEvent, m: Metrics)
    requires
        unique_keys(s.entries),
        e.op == Operation::Delete,
    ensures
        !has_key(dram_step(s, e, m).0.entries, e.key@),
{
    lemma_without_key(s.entries, e.key@);
}

/// A get right after a delete of the same key is a miss.
pub proof fn lemma_dram_delete_then_get_misses(
    s: DramState,
    delete: TraceEvent,
    get: TraceEvent,
    m: Metrics,
    m1: Metrics,
)
    requires
        unique_keys(s.entries),
        delete.op == Operation::Delete,
        get.op == Operation::Get,
        get.key@ == delete.key@,
    ensures
        dram_step(dram_step(s, delete, m).0, get, m1).1 == m1.with_request().with_miss(),
{
    lemma_without_key(s.entries, delete.key@);
}

/// A get that hits DRAM makes the key the most recently used entry: it moves to the
/// end with its value unchanged, the other entries keep their order, and nothing else
/// changes.
pub proof fn lemma_dram_get_hit_refreshes(s: DramState, e: TraceEvent, m: Metrics)
    requires
        unique_keys(s.entries),
        e.op == Operation::Get,
        has_key(s.entries, e.key@),
    ensures
        dram_step(s, e, m).0.capacity == s.capacity,
        dram_step(s, e, m).0.entries.len() == s.entries.len(),
        dram_step(s, e, m).0.entries.last() == (e.key@, lookup(s.entries, e.key@).unwrap()),
        dram_step(s, e, m).0.entries.drop_last() == without_key(s.entries, e.key@),
{
    lemma_without_key(s.entries, e.key@);
    crate::lru::lemma_touch_keeps_contents(s.entries, e.key@);
    let v = lookup(s.entries, e.key@).unwrap();
    assert(without_key(s.entries, e.key@).push((e.key@, v)).drop_last() =~= without_key(
        s.entries,
        e.key@,
    ));
}

/// Byte-capacity LRU cache in DRAM only.
#[derive(Debug)]
pub struct DramLruCache {
    dram: LruCache<Object>,
}

impl View for DramLruCache {
    type V = DramState;

    closed spec fn view(&self) -> DramState {
        DramState { capacity: self.dram.capacity(), entries: self.dram.entries() }
    }
}

impl DramLruCache {
    pub closed spec fn dram_wf(&self) -> bool {
        self.dram.wf()
    }

    /// The invariant, seen on the model: unique keys within the capacity.
    pub proof fn lemma_inv_state(&self)
        requires
            self.inv(),
        ensures
            unique_keys(self@.entries),
            total_size(self@.entries) <= self@.capacity,
    {
    }

    pub fn new(capacity_bytes: u64) -> (c: Self)
        ensures
            c.inv(),
            c@ == (DramState { capacity: capacity_bytes, entries: Seq::empty() }),
    {
        Self { dram: LruCache::new(capacity_bytes) }
    }
}

impl CachePolicy for DramLruCache {
    open spec fn inv(&self) -> bool {
        self.dram_wf()
    }

    open spec fn can_handle(&self, event: TraceEvent, metrics: Metrics) -> bool {
        dram_step_ok(self@, event, metrics)
    }

    open spec fn handled(
        &self,
        event: TraceEvent,
        metrics: Metrics,
        after: Self,
        metrics_after: Metrics,
    ) -> bool {
        (after@, metrics_after) == dram_step(self@, event, metrics)
    }

    open spec fn can_finish(&self, metrics: Metrics) -> bool {
        true
    }

    proof fn lemma_handled_counts(
        &self,
        event: TraceEvent,
        metrics: Metrics,
        after: Self,
        metrics_after: Metrics,
    ) {
        lemma_dram_step_counts(self@, event, metrics);
    }

    proof fn lemma_finish_keeps_counts(
        &self,
        metrics: Metrics,
        after: Self,
        metrics_after: Metrics,
    ) {
    }

    fn check_finish(&self, metrics: &Metrics) -> (b: bool) {
        true
    }

    open spec fn finished(&self, metrics: Metrics, after: Self, metrics_after: Metrics) -> bool {
        after@ == self@ && metrics_after == metrics
    }

    fn try_handle(&mut self, event: &TraceEvent, metrics: &mut Metrics) -> (ok: bool) {
        proof {
            lemma_without_key(self@.entries, event.key@);
        }
        if metrics.total_requests == u64::MAX {
            return false;
        }
        metrics.record_request();
        match event.op {
            Operation::Get => {
                if self.dram.get(event.key.as_str()).is_some() {
                    if metrics.lookup_requests == u64::MAX || metrics.cache_hits == u64::MAX
                        || metrics.dram_hits == u64::MAX {
                        return false;
                    }
                    metrics.record_dram_hit();
                } else {
                    if metrics.lookup_requests == u64::MAX || metrics.cache_misses == u64::MAX {
                        return false;
                    }
                    metrics.record_miss();
                }
            },
            Operation::Put | Operation::Update => {
                let evicted = self.dram.insert(event.key.clone(), Object::new(event.size));
                proof {
                    assert(evicted@.len() == model_of(evicted@).len());
                }
                let n = evicted.len() as u64;
                if metrics.evictions > u64::MAX - n {
                    return false;
                }
                metrics.evictions = metrics.evictions + n;
            },
            Operation::Delete => {
                self.dram.remove(event.key.as_str());
            },
        }
        true
    }

    fn finish(&mut self, metrics: &mut Metrics) {
    }
}

// ------------------------------------------------------------------------------------------
// Naive flash-backed cache
// ------------------------------------------------------------------------------------------

pub struct NaiveState {
    pub dram_capacity: u64,
    pub dram: Entries<Object>,
    pub flash: FlashState,
}

/// State and metrics after the naive cache handles `e`: a get checks DRAM, then flash,
/// and promotes a flash hit into DRAM; set and update go to DRAM and are written to
/// flash at once; delete drops the key from both.
pub open spec fn naive_step(s: NaiveState, e: TraceEvent, m: Metrics) -> (NaiveState, Metrics) {
    let m = m.with_request();
    let k = e.key@;
    match e.op {
        Operation::Get => {
            if has_key(s.dram, k) {
                (NaiveState { dram: touched(s.dram, k), ..s }, m.with_dram_hit())
            } else if has_key(s.flash.index, k) {
                let found = lookup(s.flash.index, k).unwrap();
                let ins = after_insert(s.dram, k, Object { size: found.size }, s.dram_capacity);
                (
                    NaiveState { dram: ins.0, flash: after_get(s.flash, k), ..s },
                    with_evictions(m.with_flash_hit(), ins.1.len()),
                )
            } else {
                (NaiveState { flash: after_get(s.flash, k), ..s }, m.with_miss())
            }
        },
        Operation::Put | Operation::Update => {
            let ins = after_insert(s.dram, k, Object { size: e.size }, s.dram_capacity);
            let w = after_write(s.flash, k, e.size);
            (
                NaiveState { dram: ins.0, flash: w.0, ..s },
                with_evictions(m, ins.1.len() + w.1),
            )
        },
        Operation::Delete => (
            NaiveState { dram: without_key(s.dram, k), flash: after_delete(s.flash, k), ..s },
            m,
        ),
    }
}

pub open spec fn naive_step_ok(s: NaiveState, e: TraceEvent, m: Metrics) -> bool {
    let k = e.key@;
    &&& m.can_record_request()
    &&& match e.op {
        Operation::Get => if has_key(s.dram, k) {
            m.can_record_dram_hit()
        } else if has_key(s.flash.index, k) {
            &&& m.can_record_flash_hit()
            &&& m.evictions + after_insert(
                s.dram,
                k,
                Object { size: lookup(s.flash.index, k).unwrap().size },
                s.dram_capacity,
            ).1.len() <= u64::MAX
        } else {
            m.can_record_miss()
        },
        Operation::Put | Operation::Update => {
            &&& can_write(s.flash, e.size)
            &&& m.evictions + after_insert(s.dram, k, Object { size: e.size }, s.dram_capacity).1.len()
                + after_write(s.flash, k, e.size).1 <= u64::MAX
        },
        Operation::Delete => true,
    }
}

/// Metrics after the run ends: the flash counters are copied from the finished flash.
pub open spec fn with_flash_counters(m: Metrics, f: FlashState) -> Metrics {
    Metrics {
        flash_bytes_written: f.written,
        logical_bytes_admitted: f.admitted,
        segment_flushes: f.flushes,
        ..m
    }
}

/// Every request is counted once, and only gets count as lookups, each a hit or a miss.
pub proof fn lemma_naive_step_counts(s: NaiveState, e: TraceEvent, m: Metrics)
    requires
        naive_step_ok(s, e, m),
    ensures
        m.counted_once(naive_step(s, e, m).1, e.op == Operation::Get),
{
}

/// Every set and update is written to flash at once.
pub proof fn lemma_naive_writes_every_update(s: NaiveState, e: TraceEvent, m: Metrics)
    requires
        s.flash.segment_size > 0,
        naive_step_ok(s, e, m),
        e.op == Operation::Put || e.op == Operation::Update,
    ensures
        naive_step(s, e, m).0.flash.admitted == s.flash.admitted + e.size,
{
    lemma_write_accounting(s.flash, e.key@, e.size);
}

/// Read after write: a stored object is in DRAM when it fits there, and on flash when
/// it is not empty and fits there.
pub proof fn lemma_naive_write_then_get(s: NaiveState, e: TraceEvent, m: Metrics)
    requires
        unique_keys(s.dram),
        total_size(s.dram) <= s.dram_capacity,
        unique_keys(s.flash.index),
        total_size(s.flash.index) <= s.flash.capacity,
        e.op == Operation::Put || e.op == Operation::Update,
    ensures
        e.size <= s.dram_capacity ==> lookup(naive_step(s, e, m).0.dram, e.key@) == Some(
            Object { size: e.size },
        ),
        0 < e.size <= s.flash.capacity ==> lookup(naive_step(s, e, m).0.flash.index, e.key@)
            == Some(FlashObject { size: e.size }),
{
    lemma_insert_then_lookup(s.dram, e.key@, Object { size: e.size }, s.dram_capacity);
    if 0 < e.size <= s.flash.capacity {
        crate::flash::lemma_write_then_get(s.flash, e.key@, e.size);
    }
}

/// A flash hit is promoted into DRAM when it fits there.
pub proof fn lemma_naive_flash_hit_promotes(s: NaiveState, e: TraceEvent, m: Metrics)
    requires
        unique_keys(s.dram),
        total_size(s.dram) <= s.dram_capacity,
        unique_keys(s.flash.index),
        e.op == Operation::Get,
        !has_key(s.dram, e.key@),
        has_key(s.flash.index, e.key@),
        lookup(s.flash.index, e.key@).unwrap().size <= s.dram_capacity,
    ensures
        lookup(naive_step(s, e, m).0.dram, e.key@) == Some(
            Object { size: lookup(s.flash.index, e.key@).unwrap().size },
        ),
{
    let size = lookup(s.flash.index, e.key@).unwrap().size;
    lemma_insert_then_lookup(s.dram, e.key@, Object { size }, s.dram_capacity);
}

/// A deleted key is gone from DRAM and from flash.
pub proof fn lemma_naive_delete_forgets(s: NaiveState, e: TraceEvent, m: Metrics)
    requires
        unique_keys(s.dram),
        unique_keys(s.flash.index),
        e.op == Operation::Delete,
    ensures
        !has_key(naive_step(s, e, m).0.dram, e.key@),
        !has_key(naive_step(s, e, m).0.flash.index, e.key@),
{
    lemma_without_key(s.dram, e.key@);
    lemma_without_key(s.flash.index, e.key@);
}

/// A get right after a delete of the same key is a miss.
pub proof fn lemma_naive_delete_then_get_misses(
    s: NaiveState,
    delete: TraceEvent,
    get: TraceEvent,
    m: Metrics,
    m1: Metrics,
)
    requires
        unique_keys(s.dram),
        unique_keys(s.flash.index),
        delete.op == Operation::Delete,
        get.op == Operation::Get,
        get.key@ == delete.key@,
    ensures
        naive_step(naive_step(s, delete, m).0, get, m1).1 == m1.with_request().with_miss(),
{
    lemma_without_key(s.dram, delete.key@);
    lemma_without_key(s.flash.index, delete.key@);
}

/// Handling an event neither pads flash nor changes its segment size.
pub proof fn lemma_naive_step_keeps_padding(s: NaiveState, e: TraceEvent, m: Metrics)
    requires
        flash_state_wf(s.flash),
        naive_step_ok(s, e, m),
    ensures
        flash_state_wf(naive_step(s, e, m).0.flash),
        padding(naive_step(s, e, m).0.flash) == padding(s.flash),
        naive_step(s, e, m).0.flash.segment_size == s.flash.segment_size,
{
    lemma_get_delete_keep_wf(s.flash, e.key@);
    if e.op == Operation::Put || e.op == Operation::Update {
        lemma_write_accounting(s.flash, e.key@, e.size);
        lemma_write_keeps_wf(s.flash, e.key@, e.size);
    }
}

/// A get that hits DRAM makes the key the most recently used DRAM entry: it moves to
/// the end with its value unchanged, the other entries keep their order, and flash is
/// left as it was.
pub proof fn lemma_naive_get_hit_refreshes(s: NaiveState, e: TraceEvent, m: Metrics)
    requires
        unique_keys(s.dram),
        e.op == Operation::Get,
        has_key(s.dram, e.key@),
    ensures
        naive_step(s, e, m).0.flash == s.flash,
        naive_step(s, e, m).0.dram.len() == s.dram.len(),
        naive_step(s, e, m).0.dram.last() == (e.key@, lookup(s.dram, e.key@).unwrap()),
        naive_step(s, e, m).0.dram.drop_last() == without_key(s.dram, e.key@),
{
    lemma_without_key(s.dram, e.key@);
    crate::lru::lemma_touch_keeps_contents(s.dram, e.key@);
    let v = lookup(s.dram, e.key@).unwrap();
    assert(without_key(s.dram, e.key@).push((e.key@, v)).drop_last() =~= without_key(
        s.dram,
        e.key@,
    ));
}

/// DRAM LRU cache backed by simulated flash that receives every set and update.
#[derive(Debug)]
pub struct NaiveFlashCache {
    dram: LruCache<Object>,
    flash: SimulatedFlash,
}

impl View for NaiveFlashCache {
    type V = NaiveState;

    closed spec fn view(&self) -> NaiveState {
        NaiveState {
            dram_capacity: self.dram.capacity(),
            dram: self.dram.entries(),
            flash: self.flash@,
        }
    }
}

impl NaiveFlashCache {
    pub closed spec fn parts_wf(&self) -> bool {
        self.dram.wf() && self.flash.wf()
    }

    /// The invariant, seen on the model: DRAM with unique keys within its capacity, and
    /// valid flash.
    pub proof fn lemma_inv_state(&self)
        requires
            self.inv(),
        ensures
            unique_keys(self@.dram),
            total_size(self@.dram) <= self@.dram_capacity,
            flash_state_wf(self@.flash),
    {
    }

    pub fn new(dram_capacity: u64, flash_capacity: u64, segment_size: u64) -> (c: Self)
        requires
            segment_size > 0,
        ensures
            c.inv(),
            c@.dram_capacity == dram_capacity,
            c@.dram == Seq::<(Seq<char>, Object)>::empty(),
            c@.flash == (FlashState {
                index: Seq::empty(),
                capacity: flash_capacity,
                segment_size,
                buffered: 0,
                written: 0,
                admitted: 0,
                flushes: 0,
                finalized: false,
            }),
    {
        Self {
            dram: LruCache::new(dram_capacity),
            flash: SimulatedFlash::new(flash_capacity, segment_size),
        }
    }
}

impl CachePolicy for NaiveFlashCache {
    open spec fn inv(&self) -> bool {
        self.parts_wf()
    }

    open spec fn can_handle(&self, event: TraceEvent, metrics: Metrics) -> bool {
        naive_step_ok(self@, event, metrics)
    }

    open spec fn handled(
        &self,
        event: TraceEvent,
        metrics: Metrics,
        after: Self,
        metrics_after: Metrics,
    ) -> bool {
        (after@, metrics_after) == naive_step(self@, event, metrics)
    }

    open spec fn can_finish(&self, metrics: Metrics) -> bool {
        can_finish(self@.flash)
    }

    proof fn lemma_handled_counts(
        &self,
        event: TraceEvent,
        metrics: Metrics,
        after: Self,
        metrics_after: Metrics,
    ) {
        lemma_naive_step_counts(self@, event, metrics);
    }

    proof fn lemma_finish_keeps_counts(
        &self,
        metrics: Metrics,
        after: Self,
        metrics_after: Metrics,
    ) {
    }

    fn check_finish(&self, metrics: &Metrics) -> (b: bool) {
        self.flash.can_finish_now()
    }

    open spec fn finished(&self, metrics: Metrics, after: Self, metrics_after: Metrics) -> bool {
        &&& after@ == (NaiveState { flash: after_finish(self@.flash), ..self@ })
        &&& metrics_after == with_flash_counters(metrics, after_finish(self@.flash))
    }

    fn try_handle(&mut self, event: &TraceEvent, metrics: &mut Metrics) -> (ok: bool) {
        proof {
            lemma_without_key(self@.dram, event.key@);
            lemma_without_key(self@.flash.index, event.key@);
        }
        if metrics.total_requests == u64::MAX {
            return false;
        }
        metrics.record_request();
        match event.op {
            Operation::Get => {
                if self.dram.get(event.key.as_str()).is_some() {
                    if metrics.lookup_requests == u64::MAX || metrics.cache_hits == u64::MAX
                        || metrics.dram_hits == u64::MAX {
                        return false;
                    }
                    metrics.record_dram_hit();
                } else if let Some(object) = self.flash.get(event.key.as_str()) {
                    if metrics.lookup_requests == u64::MAX || metrics.cache_hits == u64::MAX
                        || metrics.flash_hits == u64::MAX {
                        return false;
                    }
                    metrics.record_flash_hit();
                    let evicted = self.dram.insert(event.key.clone(), Object::new(object.size()));
                    proof {
                        assert(evicted@.len() == model_of(evicted@).len());
                    }
                    let n = evicted.len() as u64;
                    if metrics.evictions > u64::MAX - n {
                        return false;
                    }
                    metrics.evictions = metrics.evictions + n;
                } else {
                    if metrics.lookup_requests == u64::MAX || metrics.cache_misses == u64::MAX {
                        return false;
                    }
                    metrics.record_miss();
                }
            },
            Operation::Put | Operation::Update => {
                let evicted = self.dram.insert(event.key.clone(), Object::new(event.size));
                proof {
                    assert(evicted@.len() == model_of(evicted@).len());
                }
                let n = evicted.len() as u64;
                if metrics.evictions > u64::MAX - n {
                    return false;
                }
                metrics.evictions = metrics.evictions + n;
                if !self.flash.can_write_now(event.size) {
                    return false;
                }
                let flash_evicted = self.flash.write_object(event.key.clone(), event.size) as u64;
                if metrics.evictions > u64::MAX - flash_evicted {
                    return false;
                }
                metrics.evictions = metrics.evictions + flash_evicted;
            },
            Operation::Delete => {
                self.dram.remove(event.key.as_str());
                self.flash.delete(event.key.as_str());
            },
        }
        true
    }

    fn finish(&mut self, metrics: &mut Metrics) {
        self.flash.finish();
        metrics.absorb_flash_counters(
            self.flash.flash_bytes_written(),
            self.flash.logical_bytes_admitted(),
            self.flash.segment_flushes(),
        );
    }
}

proof fn lemma_naive_replay_prefix(
    p0: NaiveFlashCache,
    m0: Metrics,
    events: Seq<TraceEvent>,
    states: Seq<(NaiveFlashCache, Metrics)>,
    n: int,
)
    requires
        p0.inv(),
        replay_trace(p0, m0, events, states),
        0 <= n <= events.len(),
    ensures
        flash_state_wf(states[n].0@.flash),
        padding(states[n].0@.flash) == padding(p0@.flash),
        states[n].0@.flash.segment_size == p0@.flash.segment_size,
    decreases n,
{
    if n == 0 {
        p0.lemma_inv_state();
    } else {
        lemma_naive_replay_prefix(p0, m0, events, states, n - 1);
        let st = states[n - 1];
        st.0.lemma_inv_state();
        lemma_naive_step_keeps_padding(st.0@, events[n - 1], st.1);
    }
}

/// A run of the naive cache from flash with nothing padded, as `new` makes it, charges
/// whole segments once it ends: the segments written are the admitted bytes divided by
/// the segment size, rounded up, so less than one segment of padding is written.
pub proof fn lemma_naive_run_rounds_up(
    p0: NaiveFlashCache,
    m0: Metrics,
    events: Seq<TraceEvent>,
    p1: NaiveFlashCache,
    m1: Metrics,
    p2: NaiveFlashCache,
    m2: Metrics,
)
    requires
        p0.inv(),
        padding(p0@.flash) == 0,
        replayed(p0, m0, events, p1, m1),
        p1.can_finish(m1),
        p1.finished(m1, p2, m2),
    ensures
        m2.logical_bytes_admitted == p1@.flash.admitted,
        m2.segment_flushes == (m2.logical_bytes_admitted + p0@.flash.segment_size - 1) / (
        p0@.flash.segment_size as int),
        m2.flash_bytes_written == m2.segment_flushes * p0@.flash.segment_size,
        m2.logical_bytes_admitted <= m2.flash_bytes_written < m2.logical_bytes_admitted
            + p0@.flash.segment_size,
{
    let states = choose|states: Seq<(NaiveFlashCache, Metrics)>|
        replay_trace(p0, m0, events, states) && #[trigger] states.last() == (p1, m1);
    lemma_naive_replay_prefix(p0, m0, events, states, events.len() as int);
    p0.lemma_inv_state();
    lemma_finish_rounds_up(p1@.flash);
}

} // verus!
