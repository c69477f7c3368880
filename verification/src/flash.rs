use vstd::prelude::*;

use crate::lru::{
    after_insert, has_key, lemma_insert_then_lookup, lemma_without_key, lookup, touched,
    total_size, unique_keys, without_key, CacheValue, Entries, LruCache,
};

verus! {

/// An object indexed in simulated flash; only its size matters.
#[derive(Debug, Clone, Copy, PartialEq, Eq)]
pub struct FlashObject {
    pub size: u64,
}

impl FlashObject {
    pub fn new(size: u64) -> (o: Self)
        ensures
            o == (FlashObject { size }),
    {
        Self { size }
    }

    /// A clone of a flash object is the same object.
    pub proof fn lemma_clone_is_copy(a: FlashObject, b: FlashObject)
        requires
            cloned(a, b),
        ensures
            a == b,
    {
        assert(call_ensures(FlashObject::clone, (&a,), b) ==> b == a);
    }
}

impl CacheValue for FlashObject {
    open spec fn byte_size(&self) -> u64 {
        self.size
    }

    fn size(&self) -> (s: u64) {
        self.size
    }
}

/// The abstract state of simulated flash.
pub struct FlashState {
    /// Logical object index, least recently used first.
    pub index: Entries<FlashObject>,
    pub capacity: u64,
    pub segment_size: u64,
    /// Bytes waiting in the open segment.
    pub buffered: u64,
    /// Physical bytes written, always whole segments.
    pub written: u64,
    /// Logical bytes accepted by writes.
    pub admitted: u64,
    pub flushes: u64,
    pub finalized: bool,
}

/// Invariant of simulated flash.
pub open spec fn flash_state_wf(f: FlashState) -> bool {
    &&& unique_keys(f.index)
    &&& total_size(f.index) <= f.capacity
    &&& f.segment_size > 0
    &&& f.buffered < f.segment_size
    &&& f.written == f.flushes * f.segment_size
    &&& f.finalized ==> f.buffered == 0
    &&& f.written + f.buffered >= f.admitted
}

/// Number of segments that fill up when `size` bytes join the open segment.
pub open spec fn segments_filled(f: FlashState, size: u64) -> nat {
    ((f.buffered + size) / (f.segment_size as int)) as nat
}

/// A write of `size` bytes keeps every counter within `u64`.
pub open spec fn can_write(f: FlashState, size: u64) -> bool {
    size == 0 || {
        &&& f.admitted + size <= u64::MAX
        &&& f.buffered + size <= u64::MAX
        &&& f.written + segments_filled(f, size) * f.segment_size <= u64::MAX
        &&& f.flushes + segments_filled(f, size) <= u64::MAX
    }
}

/// State after writing an object of `size` bytes under `key`, and the number of
/// objects the index evicted. An empty object is not written at all.
pub open spec fn after_write(f: FlashState, key: Seq<char>, size: u64) -> (FlashState, nat) {
    if size == 0 {
        (f, 0)
    } else {
        let n = segments_filled(f, size);
        let ins = after_insert(f.index, key, FlashObject { size }, f.capacity);
        (
            FlashState {
                index: ins.0,
                buffered: ((f.buffered + size) % (f.segment_size as int)) as u64,
                written: (f.written + n * f.segment_size) as u64,
                admitted: (f.admitted + size) as u64,
                flushes: (f.flushes + n) as u64,
                finalized: false,
                ..f
            },
            ins.1.len(),
        )
    }
}

pub open spec fn can_finish(f: FlashState) -> bool {
    f.finalized || f.buffered == 0 || (f.written + f.segment_size <= u64::MAX && f.flushes + 1
        <= u64::MAX)
}

/// State after the run ends: a partly filled open segment is written as a whole one.
pub open spec fn after_finish(f: FlashState) -> FlashState {
    if f.finalized {
        f
    } else if f.buffered > 0 {
        FlashState {
            written: (f.written + f.segment_size) as u64,
            flushes: (f.flushes + 1) as u64,
            buffered: 0,
            finalized: true,
            ..f
        }
    } else {
        FlashState { finalized: true, ..f }
    }
}

/// State after a lookup of `key`: a hit becomes the most recently used object.
pub open spec fn after_get(f: FlashState, key: Seq<char>) -> FlashState {
    FlashState { index: touched(f.index, key), ..f }
}

/// A lookup that hits makes the key the most recently used index entry: it moves to
/// the end with its object unchanged, the other entries keep their order, and the
/// counters stay; a lookup that misses changes nothing.
pub proof fn lemma_get_refreshes(f: FlashState, key: Seq<char>)
    requires
        unique_keys(f.index),
    ensures
        has_key(f.index, key) ==> {
            &&& after_get(f, key).index.len() == f.index.len()
            &&& after_get(f, key).index.last() == (key, lookup(f.index, key).unwrap())
            &&& after_get(f, key).index.drop_last() == without_key(f.index, key)
        },
        !has_key(f.index, key) ==> after_get(f, key) == f,
        after_get(f, key).capacity == f.capacity,
        after_get(f, key).segment_size == f.segment_size,
        after_get(f, key).buffered == f.buffered,
        after_get(f, key).written == f.written,
        after_get(f, key).admitted == f.admitted,
        after_get(f, key).flushes == f.flushes,
        after_get(f, key).finalized == f.finalized,
{
    lemma_without_key(f.index, key);
    crate::lru::lemma_touch_keeps_contents(f.index, key);
    if has_key(f.index, key) {
        let v = lookup(f.index, key).unwrap();
        assert(without_key(f.index, key).push((key, v)).drop_last() =~= without_key(
            f.index,
            key,
        ));
    }
}

pub open spec fn after_delete(f: FlashState, key: Seq<char>) -> FlashState {
    FlashState { index: without_key(f.index, key), ..f }
}

/// Accounting of one write: the logical bytes grow by the object's size, and so do the
/// physical bytes written plus the bytes buffered; the segment size and capacity stay.
pub proof fn lemma_write_accounting(f: FlashState, key: Seq<char>, size: u64)
    requires
        f.segment_size > 0,
        can_write(f, size),
    ensures
        after_write(f, key, size).0.admitted == f.admitted + size,
        after_write(f, key, size).0.written + after_write(f, key, size).0.buffered == f.written
            + f.buffered + size,
        after_write(f, key, size).0.segment_size == f.segment_size,
        after_write(f, key, size).0.capacity == f.capacity,
{
    if size > 0 {
        let total: int = f.buffered + size;
        let seg: int = f.segment_size as int;
        vstd::arithmetic::div_mod::lemma_fundamental_div_mod(total, seg);
        vstd::arithmetic::div_mod::lemma_mod_pos_bound(total, seg);
        vstd::arithmetic::div_mod::lemma_div_pos_is_pos(total, seg);
        let n = segments_filled(f, size);
        assert(n * seg + total % seg == total) by (nonlinear_arith)
            requires
                total == seg * (total / seg) + total % seg,
                n == total / seg,
        ;
    }
}

/// Read after write: an object that fits the index is found under its key.
pub proof fn lemma_write_then_get(f: FlashState, key: Seq<char>, size: u64)
    requires
        unique_keys(f.index),
        total_size(f.index) <= f.capacity,
        0 < size <= f.capacity,
    ensures
        lookup(after_write(f, key, size).0.index, key) == Some(FlashObject { size }),
{
    lemma_insert_then_lookup(f.index, key, FlashObject { size }, f.capacity);
}

/// A deleted key is not found any more.
pub proof fn lemma_delete_then_get(f: FlashState, key: Seq<char>)
    requires
        unique_keys(f.index),
    ensures
        lookup(after_delete(f, key).index, key) == None::<FlashObject>,
{
    crate::lru::lemma_remove_then_lookup(f.index, key);
}

/// An empty object costs nothing.
pub proof fn lemma_empty_write_is_free(f: FlashState, key: Seq<char>)
    ensures
        after_write(f, key, 0) == (f, 0nat),
{
}

/// Ending the run twice is the same as ending it once.
pub proof fn lemma_finish_idempotent(f: FlashState)
    ensures
        after_finish(after_finish(f)) == after_finish(f),
{
}

/// After the run ends nothing is left buffered, every admitted byte is on flash, and
/// flash holds whole segments only.
pub proof fn lemma_finish_writes_everything(f: FlashState)
    requires
        flash_state_wf(f),
        can_finish(f),
    ensures
        flash_state_wf(after_finish(f)),
        after_finish(f).buffered == 0,
        after_finish(f).finalized,
        after_finish(f).written >= after_finish(f).admitted,
        after_finish(f).written == after_finish(f).flushes * after_finish(f).segment_size,
{
    if !f.finalized && f.buffered > 0 {
        assert((f.flushes + 1) * f.segment_size == f.flushes * f.segment_size + f.segment_size)
            by (nonlinear_arith);
    }
}

/// The final partial segment is the only padding: when nothing has been padded yet,
/// ending the run writes less than one segment beyond the admitted bytes.
pub proof fn lemma_finish_pads_less_than_a_segment(f: FlashState)
    requires
        flash_state_wf(f),
        can_finish(f),
        f.written + f.buffered == f.admitted,
    ensures
        after_finish(f).admitted <= after_finish(f).written < after_finish(f).admitted
            + f.segment_size,
{
}

/// The bytes on flash and in the open segment beyond the admitted ones.
pub open spec fn padding(f: FlashState) -> int {
    f.written + f.buffered - f.admitted
}

/// Nothing has been padded yet: the bytes on flash and in the open segment are exactly
/// the admitted bytes.
pub open spec fn unpadded(f: FlashState) -> bool {
    padding(f) == 0
}

/// Ending the run charges a final partial segment as a whole one: the segments written
/// are the admitted bytes divided by the segment size, rounded up, and less than one
/// segment of padding is written.
pub proof fn lemma_finish_rounds_up(f: FlashState)
    requires
        flash_state_wf(f),
        can_finish(f),
        unpadded(f),
    ensures
        after_finish(f).admitted == f.admitted,
        after_finish(f).segment_size == f.segment_size,
        after_finish(f).flushes == (f.admitted + f.segment_size - 1) / (f.segment_size as int),
        after_finish(f).written == after_finish(f).flushes * f.segment_size,
        f.admitted <= after_finish(f).written < f.admitted + f.segment_size,
{
    let seg: int = f.segment_size as int;
    let g = after_finish(f);
    lemma_finish_writes_everything(f);
    if f.buffered > 0 {
        assert(!f.finalized);
        vstd::arithmetic::div_mod::lemma_fundamental_div_mod_converse(
            f.admitted + seg - 1,
            seg,
            f.flushes + 1,
            f.buffered - 1,
        );
    } else {
        vstd::arithmetic::div_mod::lemma_fundamental_div_mod_converse(
            f.admitted + seg - 1,
            seg,
            f.flushes as int,
            seg - 1,
        );
    }
}

/// One call made on simulated flash, seen on the model.
pub enum FlashCall {
    Write { key: Seq<char>, size: u64 },
    Get { key: Seq<char> },
    Delete { key: Seq<char> },
}

pub open spec fn after_call(f: FlashState, c: FlashCall) -> FlashState {
    match c {
        FlashCall::Write { key, size } => after_write(f, key, size).0,
        FlashCall::Get { key } => after_get(f, key),
        FlashCall::Delete { key } => after_delete(f, key),
    }
}

/// State after `calls`, made in order.
pub open spec fn after_calls(f: FlashState, calls: Seq<FlashCall>) -> FlashState
    decreases calls.len(),
{
    if calls.len() == 0 {
        f
    } else {
        after_call(after_calls(f, calls.drop_last()), calls.last())
    }
}

/// Every write among `calls` keeps the counters within `u64`.
pub open spec fn calls_fit(f: FlashState, calls: Seq<FlashCall>) -> bool
    decreases calls.len(),
{
    if calls.len() == 0 {
        true
    } else {
        &&& calls_fit(f, calls.drop_last())
        &&& (calls.last() matches FlashCall::Write { size, .. } ==> can_write(
            after_calls(f, calls.drop_last()),
            size,
        ))
    }
}

/// The bytes that the writes among `calls` hand over.
pub open spec fn bytes_written_by(calls: Seq<FlashCall>) -> nat
    decreases calls.len(),
{
    if calls.len() == 0 {
        0
    } else {
        bytes_written_by(calls.drop_last()) + match calls.last() {
            FlashCall::Write { size, .. } => size as nat,
            _ => 0nat,
        }
    }
}

/// Flash as `SimulatedFlash::new` makes it.
pub open spec fn fresh_flash(capacity: u64, segment_size: u64) -> FlashState {
    FlashState {
        index: Seq::empty(),
        capacity,
        segment_size,
        buffered: 0,
        written: 0,
        admitted: 0,
        flushes: 0,
        finalized: false,
    }
}

/// Flash accounting over a run: from fresh flash, after any writes, lookups and deletes,
/// the logical bytes are the sum of the sizes written, whole segments only are on flash,
/// and less than one segment waits in the open segment. Ending the run then charges
/// the admitted bytes divided by the segment size, rounded up, in whole segments.
pub proof fn lemma_run_accounting(capacity: u64, segment_size: u64, calls: Seq<FlashCall>)
    requires
        segment_size > 0,
        calls_fit(fresh_flash(capacity, segment_size), calls),
    ensures
        ({
            let f = after_calls(fresh_flash(capacity, segment_size), calls);
            &&& flash_state_wf(f)
            &&& f.segment_size == segment_size
            &&& f.admitted == bytes_written_by(calls)
            &&& f.written == f.flushes * segment_size
            &&& f.written <= f.admitted < f.written + segment_size
            &&& can_finish(f) ==> {
                &&& after_finish(f).admitted == f.admitted
                &&& after_finish(f).flushes == (f.admitted + segment_size - 1) / (
                segment_size as int)
                &&& after_finish(f).written == after_finish(f).flushes * segment_size
                &&& f.admitted <= after_finish(f).written < f.admitted + segment_size
            }
        }),
    decreases calls.len(),
{
    let f0 = fresh_flash(capacity, segment_size);
    let f = after_calls(f0, calls);
    lemma_calls_keep_unpadded(f0, calls);
    if can_finish(f) {
        lemma_finish_rounds_up(f);
    }
}

/// Writes, lookups and deletes keep flash valid and unpadded, and add the written sizes
/// to the admitted bytes.
pub proof fn lemma_calls_keep_unpadded(f: FlashState, calls: Seq<FlashCall>)
    requires
        flash_state_wf(f),
        unpadded(f),
        calls_fit(f, calls),
    ensures
        flash_state_wf(after_calls(f, calls)),
        unpadded(after_calls(f, calls)),
        after_calls(f, calls).admitted == f.admitted + bytes_written_by(calls),
        after_calls(f, calls).segment_size == f.segment_size,
    decreases calls.len(),
{
    if calls.len() > 0 {
        let rest = calls.drop_last();
        lemma_calls_keep_unpadded(f, rest);
        let g = after_calls(f, rest);
        match calls.last() {
            FlashCall::Write { key, size } => {
                lemma_write_accounting(g, key, size);
                lemma_write_keeps_wf(g, key, size);
            },
            FlashCall::Get { key } => {
                lemma_get_delete_keep_wf(g, key);
            },
            FlashCall::Delete { key } => {
                lemma_get_delete_keep_wf(g, key);
            },
        }
    }
}

/// Writing keeps flash valid.
pub proof fn lemma_write_keeps_wf(f: FlashState, key: Seq<char>, size: u64)
    requires
        flash_state_wf(f),
        can_write(f, size),
    ensures
        flash_state_wf(after_write(f, key, size).0),
        after_write(f, key, size).1 <= f.index.len(),
        after_write(f, key, size).0.index.len() + after_write(f, key, size).1 <= f.index.len() + 1,
{
    if size > 0 {
        lemma_write_accounting(f, key, size);
        let total: int = f.buffered + size;
        let seg: int = f.segment_size as int;
        vstd::arithmetic::div_mod::lemma_mod_pos_bound(total, seg);
        let n = segments_filled(f, size);
        assert(f.written + n * seg == (f.flushes + n) * seg) by (nonlinear_arith)
            requires
                f.written == f.flushes * seg,
        ;
        lemma_insert_then_lookup(f.index, key, FlashObject { size }, f.capacity);
        crate::lru::lemma_insert_evicts_at_most_all(f.index, key, FlashObject { size }, f.capacity);
    }
}

/// Lookups and deletes keep flash valid; a delete never grows the index.
pub proof fn lemma_get_delete_keep_wf(f: FlashState, key: Seq<char>)
    requires
        flash_state_wf(f),
    ensures
        flash_state_wf(after_get(f, key)),
        flash_state_wf(after_delete(f, key)),
        after_get(f, key).index.len() == f.index.len(),
        after_delete(f, key).index.len() <= f.index.len(),
{
    crate::lru::lemma_touch_keeps_contents(f.index, key);
    lemma_without_key(f.index, key);
    crate::lru::lemma_without_key_len(f.index, key);
}

/// Flash that charges physical writes by whole sequential segments and keeps a
/// byte-capacity logical index of the objects it holds.
#[derive(Debug, Clone)]
pub struct SimulatedFlash {
    index: LruCache<FlashObject>,
    segment_size: u64,
    buffered_bytes: u64,
    flash_bytes_written: u64,
    logical_bytes_admitted: u64,
    segment_flushes: u64,
    finalized: bool,
}

impl View for SimulatedFlash {
    type V = FlashState;

    closed spec fn view(&self) -> FlashState {
        FlashState {
            index: self.index.entries(),
            capacity: self.index.capacity(),
            segment_size: self.segment_size,
            buffered: self.buffered_bytes,
            written: self.flash_bytes_written,
            admitted: self.logical_bytes_admitted,
            flushes: self.segment_flushes,
            finalized: self.finalized,
        }
    }
}

impl SimulatedFlash {
    pub closed spec fn index_wf(&self) -> bool {
        self.index.wf()
    }

    pub open spec fn wf(&self) -> bool {
        &&& self.index_wf()
        &&& flash_state_wf(self@)
    }

    pub fn new(capacity_bytes: u64, segment_size: u64) -> (f: Self)
        requires
            segment_size > 0,
        ensures
            f.wf(),
            f@ == (FlashState {
                index: Seq::empty(),
                capacity: capacity_bytes,
                segment_size,
                buffered: 0,
                written: 0,
                admitted: 0,
                flushes: 0,
                finalized: false,
            }),
    {
        let f = Self {
            index: LruCache::new(capacity_bytes),
            segment_size,
            buffered_bytes: 0,
            flash_bytes_written: 0,
            logical_bytes_admitted: 0,
            segment_flushes: 0,
            finalized: false,
        };
        assert(f.index.entries() =~= Seq::<(Seq<char>, FlashObject)>::empty());
        f
    }

    /// Looks `key` up in the logical index.
    pub fn get(&mut self, key: &str) -> (r: Option<FlashObject>)
        requires
            old(self).wf(),
        ensures
            final(self).wf(),
            final(self)@ == after_get(old(self)@, key@),
            r == lookup(old(self)@.index, key@),
    {
        let r = self.index.get(key);
        proof {
            lemma_without_key(old(self)@.index, key@);
            if r is Some {
                FlashObject::lemma_clone_is_copy(lookup(old(self)@.index, key@).unwrap(), r.unwrap());
            }
        }
        r
    }

    /// Appends an object to the open segment, flushing every segment that fills up,
    /// and indexes it. Returns how many objects the index evicted.
    pub fn write_object(&mut self, key: String, size: u64) -> (evicted: usize)
        requires
            old(self).wf(),
            can_write(old(self)@, size),
        ensures
            final(self).wf(),
            final(self)@ == after_write(old(self)@, key@, size).0,
            evicted == after_write(old(self)@, key@, size).1,
    {
        if size == 0 {
            return 0;
        }
        let ghost f0 = self@;
        let ghost n = segments_filled(f0, size);
        let ghost key_view = key@;
        self.finalized = false;
        self.logical_bytes_admitted = self.logical_bytes_admitted + size;
        self.buffered_bytes = self.buffered_bytes + size;
        let ghost total: int = f0.buffered + size;
        let ghost seg: int = f0.segment_size as int;
        proof {
            vstd::arithmetic::div_mod::lemma_fundamental_div_mod(total, seg);
            vstd::arithmetic::div_mod::lemma_mod_pos_bound(total, seg);
            vstd::arithmetic::div_mod::lemma_div_pos_is_pos(total, seg);
            assert(n == total / seg);
            assert(total == n * seg + total % seg) by (nonlinear_arith)
                requires
                    total == seg * (total / seg) + total % seg,
                    n == total / seg,
            ;
        }
        let ghost mut j: int = 0;
        while self.buffered_bytes >= self.segment_size
            invariant
                self.index == old(self).index,
                self.logical_bytes_admitted == f0.admitted + size,
                !self.finalized,
                self.segment_size == seg,
                seg > 0,
                0 <= j <= n,
                total == n * seg + total % seg,
                0 <= total % seg < seg,
                self.buffered_bytes + j * seg == total,
                self.flash_bytes_written == f0.written + j * seg,
                self.segment_flushes == f0.flushes + j,
                f0.written + n * seg <= u64::MAX,
                f0.flushes + n <= u64::MAX,
            decreases self.buffered_bytes,
        {
            assert((j + 1) * seg == j * seg + seg) by (nonlinear_arith);
            assert(j + 1 <= n) by (nonlinear_arith)
                requires
                    (j + 1) * seg <= total,
                    total == n * seg + total % seg,
                    0 <= total % seg < seg,
                    seg > 0,
                    j >= 0,
                    n >= 0,
            ;
            assert(f0.written + (j + 1) * seg <= f0.written + n * seg) by (nonlinear_arith)
                requires
                    j + 1 <= n,
                    seg > 0,
            ;
            self.buffered_bytes = self.buffered_bytes - self.segment_size;
            self.flash_bytes_written = self.flash_bytes_written + self.segment_size;
            self.segment_flushes = self.segment_flushes + 1;
            proof {
                j = j + 1;
            }
        }
        proof {
            vstd::arithmetic::div_mod::lemma_fundamental_div_mod_converse(
                total,
                seg,
                j,
                self.buffered_bytes as int,
            );
            assert(self.flash_bytes_written == self.segment_flushes * seg) by (nonlinear_arith)
                requires
                    self.flash_bytes_written == f0.written + j * seg,
                    self.segment_flushes == f0.flushes + j,
                    f0.written == f0.flushes * seg,
            ;
            lemma_insert_then_lookup(f0.index, key_view, FlashObject { size }, f0.capacity);
        }
        let evicted = self.index.insert(key, FlashObject::new(size));
        evicted.len()
    }

    /// Drops `key` from the logical index.
    pub fn delete(&mut self, key: &str)
        requires
            old(self).wf(),
        ensures
            final(self).wf(),
            final(self)@ == after_delete(old(self)@, key@),
    {
        self.index.remove(key);
    }

    /// Ends the run: a partly filled open segment is written as a whole one, once.
    pub fn finish(&mut self)
        requires
            old(self).wf(),
            can_finish(old(self)@),
        ensures
            final(self).wf(),
            final(self)@ == after_finish(old(self)@),
    {
        if self.finalized {
            return;
        }
        if self.buffered_bytes > 0 {
            proof {
                assert((self.segment_flushes + 1) * self.segment_size == self.segment_flushes
                    * self.segment_size + self.segment_size) by (nonlinear_arith);
            }
            self.flash_bytes_written = self.flash_bytes_written + self.segment_size;
            self.segment_flushes = self.segment_flushes + 1;
            self.buffered_bytes = 0;
        }
        self.finalized = true;
    }

    pub fn flash_bytes_written(&self) -> (r: u64)
        ensures
            r == self@.written,
    {
        self.flash_bytes_written
    }

    pub fn logical_bytes_admitted(&self) -> (r: u64)
        ensures
            r == self@.admitted,
    {
        self.logical_bytes_admitted
    }

    /// Bytes waiting in the open segment.
    pub fn buffered_bytes(&self) -> (r: u64)
        ensures
            r == self@.buffered,
    {
        self.buffered_bytes
    }

    pub fn segment_flushes(&self) -> (r: u64)
        ensures
            r == self@.flushes,
    {
        self.segment_flushes
    }

    /// Whether a write of `size` bytes keeps every counter within `u64`.
    pub fn can_write_now(&self, size: u64) -> (b: bool)
        requires
            self.wf(),
        ensures
            b == can_write(self@, size),
    {
        if size == 0 {
            return true;
        }
        if self.logical_bytes_admitted > u64::MAX - size || self.buffered_bytes > u64::MAX - size {
            return false;
        }
        let total = self.buffered_bytes + size;
        let n = total / self.segment_size;
        proof {
            let seg = self.segment_size as int;
            vstd::arithmetic::div_mod::lemma_fundamental_div_mod(total as int, seg);
            vstd::arithmetic::div_mod::lemma_mod_pos_bound(total as int, seg);
            let t = total as int;
            assert(n * seg <= t) by (nonlinear_arith)
                requires
                    t == seg * (t / seg) + t % seg,
                    t % seg >= 0,
                    n == t / seg,
            ;
        }
        let filled = n * self.segment_size;
        self.flash_bytes_written <= u64::MAX - filled && self.segment_flushes <= u64::MAX - n
    }

    /// Whether ending the run keeps every counter within `u64`.
    pub fn can_finish_now(&self) -> (b: bool)
        requires
            self.wf(),
        ensures
            b == can_finish(self@),
    {
        self.finalized || self.buffered_bytes == 0 || (self.flash_bytes_written <= u64::MAX
            - self.segment_size && self.segment_flushes < u64::MAX)
    }

    /// Number of objects in the logical index.
    pub fn object_count(&self) -> (n: usize)
        ensures
            n == self@.index.len(),
    {
        self.index.len()
    }
}

} // verus!
