use vstd::prelude::*;
use std::collections::HashMap;
use vstd::std_specs::iter::IteratorSpec;

verus! {

broadcast use vstd::std_specs::hash::group_hash_axioms;

/// A cached value, with the tick at which it was last used.
pub struct CachedLayout<V> {
    pub layout: V,
    pub last_used: u64,
}

/// The key of the least recently used entry of a non-empty map.
fn oldest_key<V>(map: &HashMap<u64, CachedLayout<V>>) -> (k: u64)
    requires
        map@.len() > 0,
    ensures
        map@.contains_key(k),
        forall|k2: u64| #[trigger] map@.contains_key(k2) ==> map@[k].last_used <= map@[k2].last_used,
{
    let mut best: Option<(u64, u64)> = None;
    let ghost items = vstd::std_specs::hash::spec_hash_map_iter(map).remaining();
    for (key, cached) in it: map.iter()
        invariant
            it.seq() == items,
            items == vstd::std_specs::hash::spec_hash_map_iter(map).remaining(),
            items.len() == map@.dom().len(),
            best is None <==> it.index() == 0,
            best matches Some(b) ==> {
                &&& map@.contains_key(b.0)
                &&& map@[b.0].last_used == b.1
                &&& forall|i: int| 0 <= i < it.index() ==> b.1 <= (#[trigger] items[i]).1.last_used
            },
    {
        proof {
            assert(map@.contains_key(*items[it.index()].0));
        }
        match best {
            None => {
                best = Some((*key, cached.last_used));
            },
            Some(b) => {
                if cached.last_used < b.1 {
                    best = Some((*key, cached.last_used));
                }
            },
        }
    }
    match best {
        Some(b) => {
            assert forall|k2: u64| #[trigger] map@.contains_key(k2) implies map@[b.0].last_used
                <= map@[k2].last_used by {
                assert(items.contains((&k2, &map@[k2])));
                let i = choose|i: int| 0 <= i < items.len() && items[i] == (&k2, &map@[k2]);
                assert(b.1 <= items[i].1.last_used);
            }
            b.0
        },
        None => {
            assert(false);
            0
        },
    }
}


/// `new` is what is left of `old` after evicting all but its `keep` most recently used
/// entries: a part of `old` of that size, every entry of which was used after every entry
/// that was evicted.
pub open spec fn evicts<V>(old: Map<u64, CachedLayout<V>>, new: Map<u64, CachedLayout<V>>, keep: nat) -> bool {
    &&& new.submap_of(old)
    &&& new.len() == if old.len() <= keep { old.len() } else { keep }
    &&& forall|k: u64, r: u64|
        #![trigger new.contains_key(k), old.contains_key(r)]
        new.contains_key(k) && old.contains_key(r) && !new.contains_key(r) ==> old[r].last_used
            < old[k].last_used
}

/// What inserting into a cache of the given capacity leaves of its entries before the new
/// entry goes in: the entries after eviction when the cache is full, else all of them.
pub open spec fn before_insert<V>(old: Map<u64, CachedLayout<V>>, kept: Map<u64, CachedLayout<V>>, capacity: nat) -> bool {
    if old.len() >= capacity {
        evicts(old, kept, capacity / 2)
    } else {
        kept == old
    }
}

/// No two entries of `m` were last used at the same tick.
pub open spec fn distinct_ticks<V>(m: Map<u64, CachedLayout<V>>) -> bool {
    forall|a: u64, b: u64|
        #![trigger m.contains_key(a), m.contains_key(b)]
        m.contains_key(a) && m.contains_key(b) && a != b ==> m[a].last_used != m[b].last_used
}

/// Eviction is determined: when entries were last used at distinct ticks, there is only one
/// way to keep the `keep` most recently used of them.
pub proof fn lemma_eviction_is_determined<V>(
    old: Map<u64, CachedLayout<V>>,
    a: Map<u64, CachedLayout<V>>,
    b: Map<u64, CachedLayout<V>>,
    keep: nat,
)
    requires
        old.dom().finite(),
        distinct_ticks(old),
        evicts(old, a, keep),
        evicts(old, b, keep),
    ensures
        a == b,
{
    assert forall|x: u64| a.contains_key(x) implies b.contains_key(x) by {
        lemma_extra_key_has_partner(old, a, b, keep, x);
    }
    assert forall|x: u64| b.contains_key(x) implies a.contains_key(x) by {
        lemma_extra_key_has_partner(old, b, a, keep, x);
    }
    assert forall|k: u64| a.contains_key(k) implies a[k] == b[k] by {
        assert(a.submap_of(old) && b.submap_of(old));
        assert(a.dom().contains(k) && b.dom().contains(k));
        assert(old.dom().contains(k));
        assert(a[k] == old[k]);
        assert(b[k] == old[k]);
    }
    assert(a =~= b);
}

/// A key one eviction keeps, another eviction of the same entries keeps too: otherwise each
/// would keep a key the other evicts, and each of those keys would have to be the more
/// recently used one.
proof fn lemma_extra_key_has_partner<V>(
    old: Map<u64, CachedLayout<V>>,
    a: Map<u64, CachedLayout<V>>,
    b: Map<u64, CachedLayout<V>>,
    keep: nat,
    x: u64,
)
    requires
        old.dom().finite(),
        distinct_ticks(old),
        evicts(old, a, keep),
        evicts(old, b, keep),
        a.contains_key(x),
    ensures
        b.contains_key(x),
{
    if b.contains_key(x) {
    } else if b.dom().subset_of(a.dom()) {
        assert(b.dom().subset_of(a.dom().remove(x)));
        vstd::set_lib::lemma_len_subset(a.dom(), old.dom());
        vstd::set_lib::lemma_len_subset(b.dom(), a.dom().remove(x));
        assert(a.dom().remove(x).len() == a.dom().len() - 1);
        assert(false);
    } else {
        let y = choose|y: u64| b.dom().contains(y) && !a.dom().contains(y);
        assert(b.contains_key(y) && old.contains_key(x) && !b.contains_key(x));
        assert(old[x].last_used < old[y].last_used);
        assert(a.contains_key(x) && old.contains_key(y) && !a.contains_key(y));
        assert(old[y].last_used < old[x].last_used);
    }
}

/// After inserting a layout under a key that was not cached, that key is cached with
/// that layout.
pub proof fn lemma_fresh_insert_is_cached<V>(
    old: Map<u64, CachedLayout<V>>,
    kept: Map<u64, CachedLayout<V>>,
    capacity: nat,
    key: u64,
    layout: V,
    tick: u64,
)
    requires
        !old.contains_key(key),
        before_insert(old, kept, capacity),
    ensures
        ({
            let new = if kept.contains_key(key) {
                kept
            } else {
                kept.insert(key, CachedLayout { layout, last_used: tick })
            };
            new.contains_key(key) && new[key].layout == layout
        }),
{
}

/// A lookup keeps every cached key and layout; only the looked-up entry's tick changes.
pub proof fn lemma_lookup_keeps_layouts<V>(old: Map<u64, CachedLayout<V>>, key: u64, tick: u64)
    requires
        old.contains_key(key),
    ensures
        ({
            let new = old.insert(key, CachedLayout { layout: old[key].layout, last_used: tick });
            &&& new.dom() == old.dom()
            &&& forall|k: u64| #[trigger] new.contains_key(k) ==> new[k].layout == old[k].layout
        }),
{
    let new = old.insert(key, CachedLayout { layout: old[key].layout, last_used: tick });
    assert(new.dom() =~= old.dom());
}

/// A cache of text layouts keyed by a hash, evicting the least recently used half when full.
pub struct TextLayoutCache<V> {
    map: HashMap<u64, CachedLayout<V>>,
    tick: u64,
    capacity: usize,
}

impl<V> TextLayoutCache<V> {
    /// The cached entries by key.
    pub closed spec fn entries(&self) -> Map<u64, CachedLayout<V>> {
        self.map@
    }

    /// The current tick; it advances on every lookup and insertion.
    pub closed spec fn tick(&self) -> u64 {
        self.tick
    }

    /// The number of entries at which the cache evicts.
    pub closed spec fn capacity(&self) -> usize {
        self.capacity
    }

    /// Every entry was last used at a distinct tick no later than the current one, and the cache
    /// holds at most `capacity` entries (one, when the capacity is zero).
    pub open spec fn wf(&self) -> bool {
        &&& self.entries().dom().finite()
        &&& forall|k: u64| #[trigger] self.entries().contains_key(k) ==> self.entries()[k].last_used <= self.tick()
        &&& distinct_ticks(self.entries())
        &&& self.entries().len() <= self.capacity() || self.entries().len() <= 1
    }

    /// An empty cache that evicts once it holds `capacity` entries.
    pub fn new(capacity: usize) -> (c: Self)
        ensures
            c.wf(),
            c.entries() == Map::<u64, CachedLayout<V>>::empty(),
            c.tick() == 0,
            c.capacity() == capacity,
    {
        TextLayoutCache { map: HashMap::with_capacity(capacity), tick: 0, capacity }
    }

    /// The current tick.
    pub fn current_tick(&self) -> (t: u64)
        ensures
            t == self.tick(),
    {
        self.tick
    }

    /// Looks up `key`, marking its entry as used now.
    pub fn get(&mut self, key: u64) -> (r: Option<&V>)
        requires
            old(self).wf(),
            old(self).tick() < u64::MAX,
        ensures
            final(self).wf(),
            final(self).tick() == old(self).tick() + 1,
            final(self).capacity() == old(self).capacity(),
            old(self).entries().contains_key(key) ==> {
                &&& r matches Some(v) && *v == old(self).entries()[key].layout
                &&& final(self).entries() == old(self).entries().insert(
                    key,
                    CachedLayout { layout: old(self).entries()[key].layout, last_used: final(self).tick() },
                )
            },
            !old(self).entries().contains_key(key) ==> r is None && final(self).entries()
                == old(self).entries(),
    {
        self.tick = self.tick + 1;
        match self.map.remove(&key) {
            None => None,
            Some(mut cached) => {
                cached.last_used = self.tick;
                self.map.insert(key, cached);
                match self.map.get(&key) {
                    Some(c) => Some(&c.layout),
                    None => {
                        assert(false);
                        None
                    },
                }
            },
        }
    }

    /// Evicts all but the `capacity / 2` most recently used entries.
    fn evict_oldest(&mut self)
        requires
            old(self).wf(),
        ensures
            final(self).tick() == old(self).tick(),
            final(self).capacity() == old(self).capacity(),
            evicts(old(self).entries(), final(self).entries(), (old(self).capacity() / 2) as nat),
    {
        let keep = self.capacity / 2;
        let ghost old_m = self.map@;
        while self.map.len() > keep
            invariant
                self.tick == old(self).tick(),
                self.capacity == old(self).capacity(),
                keep == self.capacity / 2,
                old_m == old(self).entries(),
                old_m.dom().finite(),
                distinct_ticks(old_m),
                self.map@.submap_of(old_m),
                old_m.len() <= keep ==> self.map@ == old_m,
                old_m.len() > keep ==> self.map@.len() >= keep,
                forall|k: u64, r: u64|
                    #![trigger self.map@.contains_key(k), old_m.contains_key(r)]
                    self.map@.contains_key(k) && old_m.contains_key(r) && !self.map@.contains_key(r)
                        ==> old_m[r].last_used < old_m[k].last_used,
            decreases self.map@.len(),
        {
            let k = oldest_key(&self.map);
            let ghost before = self.map@;
            self.map.remove(&k);
            proof {
                assert forall|k2: u64, r: u64|
                    #![trigger self.map@.contains_key(k2), old_m.contains_key(r)]
                    self.map@.contains_key(k2) && old_m.contains_key(r) && !self.map@.contains_key(r)
                        implies old_m[r].last_used < old_m[k2].last_used by {
                    assert(before.contains_key(k2));
                    if r == k {
                        assert(before[k].last_used <= before[k2].last_used);
                        assert(old_m.contains_key(k2) && old_m.contains_key(k) && k2 != k);
                    } else {
                        assert(!before.contains_key(r));
                    }
                }
            }
        }
    }

    /// Inserts `layout` under `key` unless the key is already cached, evicting the least
    /// recently used half of the entries first when the cache is full. Returns the layout
    /// cached under `key`.
    pub fn insert(&mut self, key: u64, layout: V) -> (r: &V)
        requires
            old(self).wf(),
            old(self).tick() < u64::MAX,
        ensures
            final(self).wf(),
            final(self).tick() == old(self).tick() + 1,
            final(self).capacity() == old(self).capacity(),
            exists|kept: Map<u64, CachedLayout<V>>|
                #[trigger] before_insert(old(self).entries(), kept, old(self).capacity() as nat) && final(self).entries()
                    == if kept.contains_key(key) {
                    kept
                } else {
                    kept.insert(key, CachedLayout { layout, last_used: final(self).tick() })
                },
            final(self).entries().contains_key(key),
            *r == final(self).entries()[key].layout,
    {
        self.tick = self.tick + 1;
        let ghost old_m = self.map@;
        if self.map.len() >= self.capacity {
            self.evict_oldest();
        }
        let ghost kept = self.map@;
        assert(before_insert(old_m, kept, self.capacity as nat));
        if !self.map.contains_key(&key) {
            self.map.insert(key, CachedLayout { layout, last_used: self.tick });
        }
        proof {
            let m = self.map@;
            assert forall|a: u64, b: u64|
                #![trigger m.contains_key(a), m.contains_key(b)]
                m.contains_key(a) && m.contains_key(b) && a != b implies m[a].last_used != m[b].last_used by {
                if a != key && b != key {
                    assert(old_m.contains_key(a) && old_m.contains_key(b));
                } else if a == key && !kept.contains_key(key) {
                    assert(old_m.contains_key(b));
                } else if b == key && !kept.contains_key(key) {
                    assert(old_m.contains_key(a));
                } else {
                    assert(old_m.contains_key(a) && old_m.contains_key(b));
                }
            }
            assert forall|k: u64| #[trigger] m.contains_key(k) implies m[k].last_used <= self.tick by {
                if k != key || kept.contains_key(key) {
                    assert(old_m.contains_key(k));
                }
            }
        }
        &self.map.get(&key).unwrap().layout
    }
}

/// Converts a `[T; N]` into a `Vec<T>` with the same elements, with
/// `Vec::from([T; N])`, which std documents as moving the array's items into a new vector.
#[verifier::external_body]
fn array_into_vec<T, const N: usize>(a: [T; N]) -> (v: Vec<T>)
    ensures
        v@ == a@,
{
    Vec::from(a)
}

/// Converts a `Vec<T>` of length `N` into a `[T; N]` with `<[T; N]>::try_from`, which std
/// documents as giving the vector's entire contents as an array when its length matches.
#[verifier::external_body]
fn vec_into_array<T, const N: usize>(v: Vec<T>) -> (a: [T; N])
    requires
        v@.len() == N,
    ensures
        a@ == v@,
{
    <[T; N]>::try_from(v).ok().unwrap()
}

/// Converts an array element by element.
pub trait IntoArray<T, const N: usize>: Sized {
    /// The array with each element converted.
    fn into_array(self) -> [T; N];
}

impl<T, U: From<T>, const N: usize> IntoArray<U, N> for [T; N] {
    /// Each element of the result is what `U::from` gives for the element at the same place.
    fn into_array(self) -> (r: [U; N])
        ensures
            forall|i: int| 0 <= i < N ==> call_ensures(U::from, (self@[i],), #[trigger] r@[i]),
    {
        let ghost a = self@;
        let mut rest: Vec<T> = array_into_vec(self);
        let mut out: Vec<U> = Vec::new();
        let mut k: usize = 0;
        while k < N
            invariant
                a.len() == N,
                k <= N,
                rest@ == a.subrange(k as int, N as int),
                out@.len() == k,
                forall|i: int| 0 <= i < k ==> call_ensures(U::from, (a[i],), #[trigger] out@[i]),
            decreases N - k,
        {
            let x = rest.remove(0);
            let y: U = x.into();
            out.push(y);
            k = k + 1;
        }
        vec_into_array(out)
    }
}

} // verus!
