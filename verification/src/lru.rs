use vstd::prelude::*;

verus! {

/// A value that an `LruCache` can hold: it reports how many bytes it occupies.
pub trait CacheValue: Clone + Sized {
    /// The number of bytes the value is charged for.
    spec fn byte_size(&self) -> u64;

    fn size(&self) -> (s: u64)
        ensures
            s == self.byte_size(),
    ;
}

/// Cache contents in recency order: index 0 is the least recently used entry,
/// the last index the most recently used one.
pub type Entries<V> = Seq<(Seq<char>, V)>;

/// Sum of the byte sizes of all entries.
pub open spec fn total_size<V: CacheValue>(s: Entries<V>) -> nat
    decreases s.len(),
{
    if s.len() == 0 {
        0
    } else {
        total_size(s.drop_last()) + (s.last().1.byte_size() as nat)
    }
}

pub open spec fn has_key<V>(s: Entries<V>, k: Seq<char>) -> bool {
    exists|i: int| 0 <= i < s.len() && s[i].0 == k
}

/// No key occurs twice.
pub open spec fn unique_keys<V>(s: Entries<V>) -> bool {
    forall|i: int, j: int| 0 <= i < s.len() && 0 <= j < s.len() && i != j ==> s[i].0 != s[j].0
}

/// The value stored under `k`, if any.
pub open spec fn lookup<V>(s: Entries<V>, k: Seq<char>) -> Option<V>
    decreases s.len(),
{
    if s.len() == 0 {
        None
    } else if s.last().0 == k {
        Some(s.last().1)
    } else {
        lookup(s.drop_last(), k)
    }
}

/// The entries with every entry for `k` dropped, the others keeping their order.
pub open spec fn without_key<V>(s: Entries<V>, k: Seq<char>) -> Entries<V>
    decreases s.len(),
{
    if s.len() == 0 {
        s
    } else {
        let rest = without_key(s.drop_last(), k);
        if s.last().0 == k {
            rest
        } else {
            rest.push(s.last())
        }
    }
}

/// The entries after a read of `k`: a present key becomes the most recently used one.
pub open spec fn touched<V>(s: Entries<V>, k: Seq<char>) -> Entries<V> {
    match lookup(s, k) {
        Some(v) => without_key(s, k).push((k, v)),
        None => s,
    }
}

/// How many least recently used entries must go before the rest fits in `budget` bytes.
pub open spec fn evict_count<V: CacheValue>(s: Entries<V>, budget: nat) -> nat
    decreases s.len(),
{
    if s.len() == 0 || total_size(s) <= budget {
        0
    } else {
        1 + evict_count(s.drop_first(), budget)
    }
}

/// Entries and evicted entries after inserting `v` under `k` into a cache of
/// `capacity` bytes. An older entry for `k` is dropped first; a value larger than the
/// whole cache is not stored; otherwise the least recently used entries are evicted,
/// oldest first, until the new value fits, and it becomes the most recently used.
pub open spec fn after_insert<V: CacheValue>(s: Entries<V>, k: Seq<char>, v: V, capacity: u64) -> (
    Entries<V>,
    Entries<V>,
) {
    let base = without_key(s, k);
    if v.byte_size() > capacity {
        (base, Seq::empty())
    } else {
        let n = evict_count(base, (capacity - v.byte_size()) as nat) as int;
        (base.skip(n).push((k, v)), base.take(n))
    }
}

/// The abstract view of stored pairs.
pub open spec fn model_of<V>(s: Seq<(String, V)>) -> Entries<V> {
    s.map_values(|e: (String, V)| (e.0@, e.1))
}

pub proof fn lemma_total_size_push<V: CacheValue>(s: Entries<V>, e: (Seq<char>, V))
    ensures
        total_size(s.push(e)) == total_size(s) + e.1.byte_size(),
{
    assert(s.push(e).drop_last() =~= s);
}

pub proof fn lemma_total_size_front<V: CacheValue>(s: Entries<V>)
    requires
        s.len() > 0,
    ensures
        total_size(s) == s[0].1.byte_size() + total_size(s.drop_first()),
    decreases s.len(),
{
    if s.len() == 1 {
        assert(s.drop_last() =~= Seq::<(Seq<char>, V)>::empty());
        assert(s.drop_first() =~= Seq::<(Seq<char>, V)>::empty());
    } else {
        lemma_total_size_front(s.drop_last());
        assert(s.drop_last().drop_first() =~= s.drop_first().drop_last());
    }
}

pub proof fn lemma_total_size_remove<V: CacheValue>(s: Entries<V>, i: int)
    requires
        0 <= i < s.len(),
    ensures
        total_size(s) == total_size(s.remove(i)) + s[i].1.byte_size(),
    decreases s.len(),
{
    if i == s.len() - 1 {
        assert(s.remove(i) =~= s.drop_last());
    } else {
        lemma_total_size_remove(s.drop_last(), i);
        assert(s.remove(i).drop_last() =~= s.drop_last().remove(i));
    }
}

pub proof fn lemma_without_key_absent<V>(s: Entries<V>, k: Seq<char>)
    requires
        !has_key(s, k),
    ensures
        without_key(s, k) == s,
    decreases s.len(),
{
    if s.len() > 0 {
        assert(!has_key(s.drop_last(), k)) by {
            if has_key(s.drop_last(), k) {
                let i = choose|i: int| 0 <= i < s.drop_last().len() && s.drop_last()[i].0 == k;
                assert(s[i].0 == k);
            }
        }
        lemma_without_key_absent(s.drop_last(), k);
        assert(s.last().0 != k);
        assert(s.drop_last().push(s.last()) =~= s);
    }
}

pub proof fn lemma_lookup_absent<V>(s: Entries<V>, k: Seq<char>)
    requires
        !has_key(s, k),
    ensures
        lookup(s, k) == None::<V>,
    decreases s.len(),
{
    if s.len() > 0 {
        assert(!has_key(s.drop_last(), k)) by {
            if has_key(s.drop_last(), k) {
                let i = choose|i: int| 0 <= i < s.drop_last().len() && s.drop_last()[i].0 == k;
                assert(s[i].0 == k);
            }
        }
        lemma_lookup_absent(s.drop_last(), k);
        assert(s.last().0 != k);
    }
}

pub proof fn lemma_without_key_at<V>(s: Entries<V>, k: Seq<char>, i: int)
    requires
        unique_keys(s),
        0 <= i < s.len(),
        s[i].0 == k,
    ensures
        without_key(s, k) == s.remove(i),
        lookup(s, k) == Some(s[i].1),
    decreases s.len(),
{
    if i == s.len() - 1 {
        assert(!has_key(s.drop_last(), k)) by {
            if has_key(s.drop_last(), k) {
                let j = choose|j: int| 0 <= j < s.drop_last().len() && s.drop_last()[j].0 == k;
                assert(s[j].0 == k);
            }
        }
        lemma_without_key_absent(s.drop_last(), k);
        assert(s.remove(i) =~= s.drop_last());
    } else {
        assert(unique_keys(s.drop_last()));
        lemma_without_key_at(s.drop_last(), k, i);
        assert(s.last().0 != k);
        assert(s.drop_last().remove(i).push(s.last()) =~= s.remove(i));
    }
}

pub proof fn lemma_unique_remove<V>(s: Entries<V>, i: int)
    requires
        unique_keys(s),
        0 <= i < s.len(),
    ensures
        unique_keys(s.remove(i)),
        forall|k: Seq<char>| has_key(s.remove(i), k) ==> has_key(s, k),
        !has_key(s.remove(i), s[i].0),
{
    let r = s.remove(i);
    assert forall|a: int, b: int| 0 <= a < r.len() && 0 <= b < r.len() && a != b implies r[a].0
        != r[b].0 by {
        let sa = if a < i {
            a
        } else {
            a + 1
        };
        let sb = if b < i {
            b
        } else {
            b + 1
        };
        assert(r[a] == s[sa]);
        assert(r[b] == s[sb]);
    }
    assert forall|k: Seq<char>| has_key(r, k) implies has_key(s, k) by {
        let a = choose|a: int| 0 <= a < r.len() && r[a].0 == k;
        let sa = if a < i {
            a
        } else {
            a + 1
        };
        assert(r[a] == s[sa]);
    }
    if has_key(r, s[i].0) {
        let a = choose|a: int| 0 <= a < r.len() && r[a].0 == s[i].0;
        let sa = if a < i {
            a
        } else {
            a + 1
        };
        assert(r[a] == s[sa]);
    }
}

pub proof fn lemma_unique_push<V>(s: Entries<V>, e: (Seq<char>, V))
    requires
        unique_keys(s),
        !has_key(s, e.0),
    ensures
        unique_keys(s.push(e)),
        forall|k: Seq<char>| has_key(s.push(e), k) <==> (has_key(s, k) || k == e.0),
{
    let r = s.push(e);
    assert forall|a: int, b: int| 0 <= a < r.len() && 0 <= b < r.len() && a != b implies r[a].0
        != r[b].0 by {
        if a == s.len() {
            assert(r[b] == s[b]);
        } else if b == s.len() {
            assert(r[a] == s[a]);
        } else {
            assert(r[a] == s[a]);
            assert(r[b] == s[b]);
        }
    }
    assert forall|k: Seq<char>| has_key(r, k) <==> (has_key(s, k) || k == e.0) by {
        if has_key(r, k) {
            let a = choose|a: int| 0 <= a < r.len() && r[a].0 == k;
            if a < s.len() {
                assert(r[a] == s[a]);
            }
        }
        if has_key(s, k) {
            let a = choose|a: int| 0 <= a < s.len() && s[a].0 == k;
            assert(r[a] == s[a]);
        }
        if k == e.0 {
            assert(r[s.len() as int] == e);
        }
    }
}

pub proof fn lemma_unique_skip<V>(s: Entries<V>, n: int)
    requires
        unique_keys(s),
        0 <= n <= s.len(),
    ensures
        unique_keys(s.skip(n)),
        forall|k: Seq<char>| has_key(s.skip(n), k) ==> has_key(s, k),
{
    let r = s.skip(n);
    assert forall|a: int, b: int| 0 <= a < r.len() && 0 <= b < r.len() && a != b implies r[a].0
        != r[b].0 by {
        assert(r[a] == s[a + n]);
        assert(r[b] == s[b + n]);
    }
    assert forall|k: Seq<char>| has_key(r, k) implies has_key(s, k) by {
        let a = choose|a: int| 0 <= a < r.len() && r[a].0 == k;
        assert(r[a] == s[a + n]);
    }
}

/// Facts about removing a key from entries without duplicate keys.
pub proof fn lemma_without_key<V: CacheValue>(s: Entries<V>, k: Seq<char>)
    requires
        unique_keys(s),
    ensures
        unique_keys(without_key(s, k)),
        !has_key(without_key(s, k), k),
        forall|k2: Seq<char>| k2 != k ==> (has_key(without_key(s, k), k2) <==> has_key(s, k2)),
        forall|k2: Seq<char>| k2 != k ==> lookup(without_key(s, k), k2) == lookup(s, k2),
        total_size(without_key(s, k)) <= total_size(s),
        has_key(s, k) ==> total_size(without_key(s, k)) + lookup(s, k).unwrap().byte_size()
            == total_size(s),
        !has_key(s, k) ==> without_key(s, k) == s,
        has_key(s, k) <==> lookup(s, k) is Some,
    decreases s.len(),
{
    if has_key(s, k) {
        let i = choose|i: int| 0 <= i < s.len() && s[i].0 == k;
        lemma_without_key_at(s, k, i);
        lemma_unique_remove(s, i);
        lemma_total_size_remove(s, i);
        let r = s.remove(i);
        assert forall|k2: Seq<char>| k2 != k implies (has_key(r, k2) <==> has_key(s, k2)) by {
            if has_key(s, k2) {
                let a = choose|a: int| 0 <= a < s.len() && s[a].0 == k2;
                assert(a != i);
                if a < i {
                    assert(r[a] == s[a]);
                } else {
                    assert(r[a - 1] == s[a]);
                }
            }
        }
        assert forall|k2: Seq<char>| k2 != k implies lookup(r, k2) == lookup(s, k2) by {
            if has_key(s, k2) {
                let a = choose|a: int| 0 <= a < s.len() && s[a].0 == k2;
                lemma_without_key_at(s, k2, a);
                assert(a != i);
                if a < i {
                    assert(r[a] == s[a]);
                    lemma_without_key_at(r, k2, a);
                } else {
                    assert(r[a - 1] == s[a]);
                    lemma_without_key_at(r, k2, a - 1);
                }
            } else {
                lemma_lookup_absent(s, k2);
                lemma_lookup_absent(r, k2);
            }
        }
    } else {
        lemma_without_key_absent(s, k);
        lemma_lookup_absent(s, k);
    }
}

pub proof fn lemma_evict_count<V: CacheValue>(s: Entries<V>, budget: nat)
    ensures
        evict_count(s, budget) <= s.len(),
        total_size(s.skip(evict_count(s, budget) as int)) <= budget,
    decreases s.len(),
{
    if s.len() == 0 || total_size(s) <= budget {
        assert(s.skip(0) =~= s);
    } else {
        lemma_evict_count(s.drop_first(), budget);
        let n = evict_count(s.drop_first(), budget) as int;
        assert(s.skip(n + 1) =~= s.drop_first().skip(n));
    }
}

/// Read after insert: a value no larger than the cache is found under its key,
/// whatever else was stored or evicted, and every other key keeps its value unless
/// it was evicted.
pub proof fn lemma_insert_then_lookup<V: CacheValue>(
    s: Entries<V>,
    k: Seq<char>,
    v: V,
    capacity: u64,
)
    requires
        unique_keys(s),
        total_size(s) <= capacity,
    ensures
        unique_keys(after_insert(s, k, v, capacity).0),
        total_size(after_insert(s, k, v, capacity).0) <= capacity,
        v.byte_size() <= capacity ==> lookup(after_insert(s, k, v, capacity).0, k) == Some(v),
        v.byte_size() > capacity ==> !has_key(after_insert(s, k, v, capacity).0, k),
        forall|k2: Seq<char>|
            k2 != k && has_key(after_insert(s, k, v, capacity).0, k2) ==> lookup(
                after_insert(s, k, v, capacity).0,
                k2,
            ) == lookup(s, k2),
{
    lemma_without_key(s, k);
    let base = without_key(s, k);
    if v.byte_size() <= capacity {
        let budget = (capacity - v.byte_size()) as nat;
        let n = evict_count(base, budget) as int;
        lemma_evict_count(base, budget);
        lemma_unique_skip(base, n);
        let kept = base.skip(n);
        lemma_unique_push(kept, (k, v));
        lemma_total_size_push(kept, (k, v));
        let r = kept.push((k, v));
        lemma_without_key_at(r, k, r.len() - 1);
        assert forall|k2: Seq<char>| k2 != k && has_key(r, k2) implies lookup(r, k2) == lookup(
            s,
            k2,
        ) by {
            let a = choose|a: int| 0 <= a < r.len() && r[a].0 == k2;
            assert(a < kept.len());
            assert(r[a] == base[a + n]);
            lemma_without_key_at(r, k2, a);
            lemma_without_key_at(base, k2, a + n);
        }
    }
}

/// Removal: after a key is removed it is no longer found, and every other key keeps
/// its value.
pub proof fn lemma_remove_then_lookup<V: CacheValue>(s: Entries<V>, k: Seq<char>)
    requires
        unique_keys(s),
    ensures
        lookup(without_key(s, k), k) == None::<V>,
        forall|k2: Seq<char>| k2 != k ==> lookup(without_key(s, k), k2) == lookup(s, k2),
{
    lemma_without_key(s, k);
    lemma_lookup_absent(without_key(s, k), k);
}

/// A read changes only the recency order: every key keeps its value, the stored bytes
/// stay the same, and a key that was read becomes the most recently used one.
pub proof fn lemma_touch_keeps_contents<V: CacheValue>(s: Entries<V>, k: Seq<char>)
    requires
        unique_keys(s),
    ensures
        unique_keys(touched(s, k)),
        total_size(touched(s, k)) == total_size(s),
        forall|k2: Seq<char>| lookup(touched(s, k), k2) == lookup(s, k2),
        touched(s, k).len() == s.len(),
        has_key(s, k) ==> touched(s, k).last().0 == k,
{
    lemma_without_key(s, k);
    if has_key(s, k) {
        let v = lookup(s, k).unwrap();
        let base = without_key(s, k);
        let r = base.push((k, v));
        lemma_unique_push(base, (k, v));
        lemma_total_size_push(base, (k, v));
        let i = choose|i: int| 0 <= i < s.len() && s[i].0 == k;
        lemma_without_key_at(s, k, i);
        lemma_without_key_at(r, k, r.len() - 1);
        assert forall|k2: Seq<char>| lookup(r, k2) == lookup(s, k2) by {
            if k2 != k {
                if has_key(r, k2) {
                    let a = choose|a: int| 0 <= a < r.len() && r[a].0 == k2;
                    lemma_without_key_at(r, k2, a);
                    assert(a < base.len());
                    assert(r[a] == base[a]);
                    lemma_without_key_at(base, k2, a);
                } else {
                    lemma_lookup_absent(r, k2);
                    lemma_lookup_absent(base, k2);
                }
            }
        }
    }
}

/// Eviction order: the evicted entries are the least recently used ones, and what stays
/// keeps its order, the new entry last.
pub proof fn lemma_insert_evicts_oldest<V: CacheValue>(
    s: Entries<V>,
    k: Seq<char>,
    v: V,
    capacity: u64,
)
    requires
        v.byte_size() <= capacity,
    ensures
        after_insert(s, k, v, capacity).1 + after_insert(s, k, v, capacity).0.drop_last()
            == without_key(s, k),
        after_insert(s, k, v, capacity).0.last() == (k, v),
{
    let base = without_key(s, k);
    let budget = (capacity - v.byte_size()) as nat;
    lemma_evict_count(base, budget);
    let n = evict_count(base, budget) as int;
    assert(base.skip(n).push((k, v)).drop_last() =~= base.skip(n));
    assert(base.take(n) + base.skip(n) =~= base);
}

/// No eviction is needed while the new value fits beside what stays.
pub proof fn lemma_insert_within_capacity_evicts_nothing<V: CacheValue>(
    s: Entries<V>,
    k: Seq<char>,
    v: V,
    capacity: u64,
)
    requires
        total_size(without_key(s, k)) + v.byte_size() <= capacity,
    ensures
        after_insert(s, k, v, capacity).1.len() == 0,
        after_insert(s, k, v, capacity).0 == without_key(s, k).push((k, v)),
{
    let base = without_key(s, k);
    assert(base.skip(0) =~= base);
}

/// A stored value is at most the whole capacity, so at most all older entries leave.
pub proof fn lemma_insert_evicts_at_most_all<V: CacheValue>(
    s: Entries<V>,
    k: Seq<char>,
    v: V,
    capacity: u64,
)
    requires
        unique_keys(s),
    ensures
        after_insert(s, k, v, capacity).1.len() <= s.len(),
        after_insert(s, k, v, capacity).0.len() + after_insert(s, k, v, capacity).1.len()
            <= s.len() + 1,
        total_size(after_insert(s, k, v, capacity).1) <= total_size(s),
        total_size(after_insert(s, k, v, capacity).1) <= total_size(without_key(s, k)),
{
    lemma_without_key(s, k);
    let base = without_key(s, k);
    lemma_without_key_len(s, k);
    if v.byte_size() <= capacity {
        let budget = (capacity - v.byte_size()) as nat;
        lemma_evict_count(base, budget);
        let n = evict_count(base, budget) as int;
        lemma_total_size_split(base, n);
    }
}

pub proof fn lemma_without_key_len<V>(s: Entries<V>, k: Seq<char>)
    ensures
        without_key(s, k).len() <= s.len(),
    decreases s.len(),
{
    if s.len() > 0 {
        lemma_without_key_len(s.drop_last(), k);
    }
}

pub proof fn lemma_total_size_split<V: CacheValue>(s: Entries<V>, n: int)
    requires
        0 <= n <= s.len(),
    ensures
        total_size(s) == total_size(s.take(n)) + total_size(s.skip(n)),
    decreases s.len() - n,
{
    if n == s.len() {
        assert(s.take(n) =~= s);
        assert(s.skip(n) =~= Seq::<(Seq<char>, V)>::empty());
    } else {
        lemma_total_size_split(s, n + 1);
        assert(s.take(n + 1).drop_last() =~= s.take(n));
        assert(s.skip(n).drop_first() =~= s.skip(n + 1));
        lemma_total_size_front(s.skip(n));
    }
}

/// A byte-capacity cache that evicts least recently used entries.
#[derive(Debug, Clone)]
pub struct LruCache<V: CacheValue> {
    capacity_bytes: u64,
    used_bytes: u64,
    /// Least recently used first.
    entries: Vec<(String, V)>,
}

impl<V: CacheValue> LruCache<V> {
    pub closed spec fn capacity(&self) -> u64 {
        self.capacity_bytes
    }

    /// Stored entries in recency order, least recently used first.
    pub closed spec fn entries(&self) -> Entries<V> {
        model_of(self.entries@)
    }

    pub closed spec fn accounted(&self) -> bool {
        self.used_bytes == total_size(self.entries())
    }

    /// The cache's invariant: keys are unique and the stored bytes fit its capacity.
    pub open spec fn wf(&self) -> bool {
        &&& self.accounted()
        &&& unique_keys(self.entries())
        &&& total_size(self.entries()) <= self.capacity()
    }

    pub fn new(capacity_bytes: u64) -> (c: Self)
        ensures
            c.wf(),
            c.capacity() == capacity_bytes,
            c.entries() == Seq::<(Seq<char>, V)>::empty(),
    {
        let c = Self { capacity_bytes, used_bytes: 0, entries: Vec::new() };
        assert(c.entries() =~= Seq::<(Seq<char>, V)>::empty());
        c
    }

    /// Bytes held by the stored entries.
    pub fn used_bytes(&self) -> (n: u64)
        requires
            self.wf(),
        ensures
            n == total_size(self.entries()),
    {
        self.used_bytes
    }

    /// Number of stored entries.
    pub fn len(&self) -> (n: usize)
        ensures
            n == self.entries().len(),
    {
        self.entries.len()
    }

    fn position(&self, key: &String) -> (r: Option<usize>)
        requires
            unique_keys(self.entries()),
        ensures
            match r {
                Some(i) => i < self.entries().len() && self.entries()[i as int].0 == key@,
                None => !has_key(self.entries(), key@),
            },
    {
        let mut i: usize = 0;
        while i < self.entries.len()
            invariant
                i <= self.entries@.len(),
                forall|j: int| 0 <= j < i ==> self.entries()[j].0 != key@,
            decreases self.entries@.len() - i,
        {
            if self.entries[i].0 == *key {
                return Some(i);
            }
            i += 1;
        }
        assert(!has_key(self.entries(), key@)) by {
            if has_key(self.entries(), key@) {
                let j = choose|j: int|
                    0 <= j < self.entries().len() && self.entries()[j].0 == key@;
                assert(self.entries()[j].0 != key@);
            }
        }
        None
    }

    proof fn lemma_model_remove(v: Seq<(String, V)>, i: int)
        requires
            0 <= i < v.len(),
        ensures
            model_of(v.remove(i)) == model_of(v).remove(i),
    {
        assert(model_of(v.remove(i)) =~= model_of(v).remove(i));
    }

    proof fn lemma_model_push(v: Seq<(String, V)>, e: (String, V))
        ensures
            model_of(v.push(e)) == model_of(v).push((e.0@, e.1)),
    {
        assert(model_of(v.push(e)) =~= model_of(v).push((e.0@, e.1)));
    }

    /// Looks `key` up; a hit makes it the most recently used entry.
    pub fn get(&mut self, key: &str) -> (r: Option<V>)
        requires
            old(self).wf(),
        ensures
            final(self).wf(),
            final(self).capacity() == old(self).capacity(),
            final(self).entries() == touched(old(self).entries(), key@),
            r is Some <==> has_key(old(self).entries(), key@),
            r matches Some(v) ==> cloned(lookup(old(self).entries(), key@).unwrap(), v),
    {
        let ghost s = self.entries();
        proof {
            lemma_without_key(s, key@);
        }
        let k = key.to_owned();
        match self.position(&k) {
            Some(i) => {
                proof {
                    lemma_without_key_at(s, key@, i as int);
                    Self::lemma_model_remove(self.entries@, i as int);
                }
                let entry = self.entries.remove(i);
                let value = entry.1.clone();
                proof {
                    Self::lemma_model_push(self.entries@, entry);
                    lemma_total_size_push(s.remove(i as int), (key@, entry.1));
                    lemma_total_size_remove(s, i as int);
                    lemma_unique_push(s.remove(i as int), (key@, entry.1));
                }
                self.entries.push(entry);
                Some(value)
            },
            None => {
                proof {
                    lemma_lookup_absent(s, key@);
                }
                None
            },
        }
    }

    /// Looks `key` up without changing the recency order.
    pub fn peek(&self, key: &str) -> (r: Option<V>)
        requires
            self.wf(),
        ensures
            r is Some <==> has_key(self.entries(), key@),
            r matches Some(v) ==> cloned(lookup(self.entries(), key@).unwrap(), v),
    {
        let ghost s = self.entries();
        proof {
            lemma_without_key(s, key@);
        }
        let k = key.to_owned();
        match self.position(&k) {
            Some(i) => {
                proof {
                    lemma_without_key_at(s, key@, i as int);
                }
                Some(self.entries[i].1.clone())
            },
            None => None,
        }
    }

    fn evict_until_fits(&mut self, incoming: u64) -> (evicted: Vec<(String, V)>)
        requires
            old(self).wf(),
            incoming <= old(self).capacity(),
        ensures
            final(self).wf(),
            final(self).capacity() == old(self).capacity(),
            final(self).entries() == old(self).entries().skip(
                evict_count(old(self).entries(), (old(self).capacity() - incoming) as nat) as int,
            ),
            model_of(evicted@) == old(self).entries().take(
                evict_count(old(self).entries(), (old(self).capacity() - incoming) as nat) as int,
            ),
            total_size(final(self).entries()) + incoming <= final(self).capacity(),
    {
        let ghost base = self.entries();
        let budget = self.capacity_bytes - incoming;
        let mut evicted: Vec<(String, V)> = Vec::new();
        proof {
            assert(base.skip(0) =~= base);
            assert(model_of(evicted@) =~= base.take(0));
        }
        while self.used_bytes > budget
            invariant
                budget == self.capacity_bytes - incoming,
                incoming <= self.capacity_bytes,
                self.capacity_bytes == old(self).capacity_bytes,
                base == old(self).entries(),
                unique_keys(base),
                self.accounted(),
                0 <= evicted@.len() <= base.len(),
                self.entries() == base.skip(evicted@.len() as int),
                model_of(evicted@) == base.take(evicted@.len() as int),
                evict_count(base, budget as nat) == evicted@.len() + evict_count(
                    self.entries(),
                    budget as nat,
                ),
            decreases self.entries@.len(),
        {
            let ghost cur = self.entries();
            assert(cur.len() > 0);
            proof {
                lemma_total_size_front(cur);
                Self::lemma_model_remove(self.entries@, 0);
                assert(cur.drop_first() =~= cur.remove(0));
                assert(cur.drop_first() =~= base.skip(evicted@.len() as int + 1));
            }
            let entry = self.entries.remove(0);
            let size = entry.1.size();
            self.used_bytes = self.used_bytes - size;
            proof {
                Self::lemma_model_push(evicted@, entry);
                assert(base.take(evicted@.len() as int).push(cur[0]) =~= base.take(
                    evicted@.len() as int + 1,
                ));
            }
            evicted.push(entry);
        }
        proof {
            lemma_unique_skip(base, evicted@.len() as int);
            lemma_evict_count(base, budget as nat);
        }
        evicted
    }

    /// Stores `value` under `key` and returns the evicted entries, least recently used first.
    pub fn insert(&mut self, key: String, value: V) -> (evicted: Vec<(String, V)>)
        requires
            old(self).wf(),
        ensures
            final(self).wf(),
            final(self).capacity() == old(self).capacity(),
            final(self).entries() == after_insert(
                old(self).entries(),
                key@,
                value,
                old(self).capacity(),
            ).0,
            model_of(evicted@) == after_insert(
                old(self).entries(),
                key@,
                value,
                old(self).capacity(),
            ).1,
    {
        let ghost s = self.entries();
        proof {
            lemma_without_key(s, key@);
        }
        if let Some(i) = self.position(&key) {
            proof {
                lemma_without_key_at(s, key@, i as int);
                Self::lemma_model_remove(self.entries@, i as int);
                lemma_total_size_remove(s, i as int);
            }
            let old_entry = self.entries.remove(i);
            let old_size = old_entry.1.size();
            self.used_bytes = self.used_bytes - old_size;
        }
        assert(self.entries() == without_key(s, key@));
        let size = value.size();
        if size > self.capacity_bytes {
            return Vec::new();
        }
        let evicted = self.evict_until_fits(size);
        proof {
            let kept = self.entries();
            let base = without_key(s, key@);
            let budget = (self.capacity() - size) as nat;
            lemma_evict_count(base, budget);
            lemma_unique_skip(base, evict_count(base, budget) as int);
            lemma_unique_push(kept, (key@, value));
            lemma_total_size_push(kept, (key@, value));
            Self::lemma_model_push(self.entries@, (key, value));
        }
        self.used_bytes = self.used_bytes + size;
        self.entries.push((key, value));
        evicted
    }

    /// Removes `key` and returns its value, if it was stored.
    pub fn remove(&mut self, key: &str) -> (r: Option<V>)
        requires
            old(self).wf(),
        ensures
            final(self).wf(),
            final(self).capacity() == old(self).capacity(),
            final(self).entries() == without_key(old(self).entries(), key@),
            r == lookup(old(self).entries(), key@),
    {
        let ghost s = self.entries();
        proof {
            lemma_without_key(s, key@);
        }
        let k = key.to_owned();
        match self.position(&k) {
            Some(i) => {
                proof {
                    lemma_without_key_at(s, key@, i as int);
                    Self::lemma_model_remove(self.entries@, i as int);
                    lemma_total_size_remove(s, i as int);
                }
                let (_, value) = self.entries.remove(i);
                let size = value.size();
                self.used_bytes = self.used_bytes - size;
                Some(value)
            },
            None => {
                proof {
                    lemma_lookup_absent(s, key@);
                }
                None
            },
        }
    }
}

} // verus!
