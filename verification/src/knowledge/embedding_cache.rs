//! Vectors by the digest of their text, the ones that were used last. What a
//! vector is made of does not matter here.

use crate::table::Table;
use crate::text::{lemma_precedes_total, lemma_precedes_transitive, less, precedes};
use vstd::prelude::*;

verus! {

/// More entries than this are not kept.
pub const CACHE_MAX: usize = 4096;

/// So many are dropped at once.
pub const EVICTED: usize = 409;

#[verifier::reject_recursive_types(V)]
pub struct EmbeddingCache<V> {
    vectors: Table<V>,
    used: Table<u64>,
}

/// An entry: a vector, and when it was used last.
pub struct CacheEntry<V> {
    pub v: V,
    pub t: u64,
}

impl<V> View for EmbeddingCache<V> {
    type V = Map<Seq<char>, CacheEntry<V>>;

    closed spec fn view(&self) -> Map<Seq<char>, CacheEntry<V>> {
        Map::new(
            |k: Seq<char>| self.vectors@.contains_key(k),
            |k: Seq<char>| CacheEntry { v: self.vectors@[k], t: self.used@[k] },
        )
    }
}

/// An entry goes before another one: it was used earlier, or has the smaller
/// digest.
pub open spec fn goes_first<V>(map: Map<Seq<char>, CacheEntry<V>>, a: Seq<char>, b: Seq<char>) -> bool {
    map[a].t < map[b].t || (map[a].t == map[b].t && precedes(a, b))
}

pub open spec fn is_oldest<V>(map: Map<Seq<char>, CacheEntry<V>>, key: Seq<char>) -> bool {
    map.contains_key(key) && forall|k: Seq<char>| #[trigger]
        map.contains_key(k) && k != key ==> goes_first(map, key, k)
}

/// Without the `count` oldest entries.
pub open spec fn evicted<V>(map: Map<Seq<char>, CacheEntry<V>>, count: nat) -> Map<
    Seq<char>,
    CacheEntry<V>,
>
    decreases count,
{
    if count == 0 || !(exists|k: Seq<char>| map.contains_key(k)) {
        map
    } else {
        evicted(map.remove(choose|k: Seq<char>| is_oldest(map, k)), (count - 1) as nat)
    }
}

/// A new entry, for which room is made where the cache is full.
pub open spec fn inserted<V>(
    map: Map<Seq<char>, CacheEntry<V>>,
    size: int,
    key: Seq<char>,
    entry: CacheEntry<V>,
) -> Map<Seq<char>, CacheEntry<V>> {
    if !map.contains_key(key) && size >= CACHE_MAX {
        evicted(map, EVICTED as nat).insert(key, entry)
    } else {
        map.insert(key, entry)
    }
}

/// How many entries there are once one is taken in that was there before, or
/// was not.
pub open spec fn size_with(size: int, known: bool) -> int {
    if known {
        size
    } else if size >= CACHE_MAX {
        size - EVICTED + 1
    } else {
        size + 1
    }
}

/// A cache that is not too large does not grow too large.
pub proof fn law_cache_is_bounded(size: int, known: bool)
    requires
        size <= CACHE_MAX,
    ensures
        size_with(size, known) <= CACHE_MAX,
{
}

/// What is taken in is found, whatever had to go for it.
pub proof fn law_inserted_is_found<V>(
    map: Map<Seq<char>, CacheEntry<V>>,
    size: int,
    key: Seq<char>,
    entry: CacheEntry<V>,
)
    ensures
        inserted(map, size, key, entry).contains_key(key),
        inserted(map, size, key, entry)[key] == entry,
{
}

/// There is only one oldest entry.
pub proof fn lemma_oldest_unique<V>(map: Map<Seq<char>, CacheEntry<V>>, key: Seq<char>)
    requires
        is_oldest(map, key),
    ensures
        key == choose|k: Seq<char>| is_oldest(map, k),
{
    let other = choose|k: Seq<char>| is_oldest(map, k);
    if other != key {
        assert(goes_first(map, key, other));
        assert(goes_first(map, other, key));
        lemma_precedes_total(key, other);
    }
}

proof fn lemma_oldest_exists<V>(map: Map<Seq<char>, CacheEntry<V>>, some: Seq<char>)
    requires
        map.dom().finite(),
        map.contains_key(some),
    ensures
        exists|k: Seq<char>| is_oldest(map, k),
    decreases map.dom().len(),
{
    let rest = map.remove(some);
    assert(rest.dom() =~= map.dom().remove(some));
    if exists|k: Seq<char>| rest.contains_key(k) {
        let other = choose|k: Seq<char>| rest.contains_key(k);
        lemma_oldest_exists(rest, other);
        let best = choose|k: Seq<char>| is_oldest(rest, k);
        lemma_precedes_total(some, best);
        if goes_first(map, some, best) {
            assert forall|k: Seq<char>| #[trigger] map.contains_key(k) && k != some implies goes_first(
                map,
                some,
                k,
            ) by {
                assert(rest.contains_key(k));
                if k != best {
                    assert(goes_first(rest, best, k));
                    if map[some].t == map[best].t && map[best].t == map[k].t {
                        lemma_precedes_transitive(some, best, k);
                    }
                }
            }
            assert(is_oldest(map, some));
        } else {
            assert forall|k: Seq<char>| #[trigger] map.contains_key(k) && k != best implies goes_first(
                map,
                best,
                k,
            ) by {
                if k != some {
                    assert(rest.contains_key(k));
                    assert(goes_first(rest, best, k));
                }
            }
            assert(is_oldest(map, best));
        }
    } else {
        assert forall|k: Seq<char>| #[trigger] map.contains_key(k) && k != some implies goes_first(
            map,
            some,
            k,
        ) by {
            assert(rest.contains_key(k));
        }
        assert(is_oldest(map, some));
    }
}

/// Room is made at the cost of the entries that were not used for the longest
/// time: whatever goes was used before everything that stays, which stays as it
/// is.
pub proof fn law_oldest_go_first<V>(
    map: Map<Seq<char>, CacheEntry<V>>,
    count: nat,
    gone: Seq<char>,
    kept: Seq<char>,
)
    requires
        map.dom().finite(),
        map.contains_key(gone),
        !evicted(map, count).contains_key(gone),
        evicted(map, count).contains_key(kept),
    ensures
        map.contains_key(kept),
        evicted(map, count)[kept] == map[kept],
        goes_first(map, gone, kept),
    decreases count,
{
    let oldest = choose|k: Seq<char>| is_oldest(map, k);
    let rest = map.remove(oldest);
    lemma_oldest_exists(map, gone);
    lemma_evicted_part(rest, (count - 1) as nat, kept);
    if gone != oldest {
        law_oldest_go_first(rest, (count - 1) as nat, gone, kept);
    }
}

proof fn lemma_evicted_part<V>(map: Map<Seq<char>, CacheEntry<V>>, count: nat, kept: Seq<char>)
    requires
        evicted(map, count).contains_key(kept),
    ensures
        map.contains_key(kept),
        evicted(map, count)[kept] == map[kept],
    decreases count,
{
    if count > 0 && exists|k: Seq<char>| map.contains_key(k) {
        let oldest = choose|k: Seq<char>| is_oldest(map, k);
        lemma_evicted_part(map.remove(oldest), (count - 1) as nat, kept);
    }
}

impl<V> EmbeddingCache<V> {
    #[verifier::type_invariant]
    spec fn inv(self) -> bool {
        forall|k: Seq<char>| #[trigger] self.vectors@.contains_key(k) <==> self.used@.contains_key(k)
    }

    /// The number of entries.
    pub closed spec fn size(&self) -> nat {
        self.vectors.order().len()
    }

    pub fn new() -> (r: EmbeddingCache<V>)
        ensures
            r@ == Map::<Seq<char>, CacheEntry<V>>::empty(),
            r.size() == 0,
    {
        let r = EmbeddingCache { vectors: Table::new(), used: Table::new() };
        assert(r@ =~= Map::<Seq<char>, CacheEntry<V>>::empty());
        r
    }

    pub fn len(&self) -> (r: usize)
        ensures
            r == self.size(),
            r == 0 <==> forall|k: Seq<char>| !self@.contains_key(k),
    {
        let n: usize = self.vectors.len();
        proof {
            if n > 0 {
                let k = self.vectors.order()[0];
                assert(self.vectors.order().contains(k));
                assert(self.vectors@.contains_key(k));
                assert(self@.contains_key(k));
            } else {
                assert forall|k: Seq<char>| !self@.contains_key(k) by {
                    if self.vectors@.contains_key(k) {
                        assert(self.vectors.order().contains(k));
                    }
                }
            }
        }
        n
    }

    pub fn is_empty(&self) -> (r: bool)
        ensures
            r == forall|k: Seq<char>| !self@.contains_key(k),
    {
        self.len() == 0
    }

    pub fn contains(&self, hash: &str) -> (r: bool)
        ensures
            r == self@.contains_key(hash@),
    {
        self.vectors.contains(hash)
    }

    /// When an entry was used last.
    pub fn last_used(&self, hash: &str) -> (r: Option<u64>)
        ensures
            r == (if self@.contains_key(hash@) {
                Some(self@[hash@].t)
            } else {
                None
            }),
    {
        proof {
            use_type_invariant(self);
        }
        match self.used.get(hash) {
            Some(t) => Some(*t),
            None => None,
        }
    }

    /// The vector of a digest, which is thereby used.
    pub fn get(&mut self, hash: &str, now: u64) -> (r: Option<&V>)
        ensures
            match r {
                Some(v) => {
                    &&& old(self)@.contains_key(hash@)
                    &&& *v == old(self)@[hash@].v
                    &&& final(self)@ == old(self)@.insert(hash@, CacheEntry { v: *v, t: now })
                },
                None => !old(self)@.contains_key(hash@) && final(self)@ == old(self)@,
            },
            final(self).size() == old(self).size(),
    {
        proof {
            use_type_invariant(&*self);
        }
        if !self.vectors.contains(hash) {
            return None;
        }
        self.touch(hash, now);
        self.vectors.get(hash)
    }

    fn touch(&mut self, hash: &str, now: u64)
        requires
            old(self).vectors@.contains_key(hash@),
        ensures
            final(self).vectors == old(self).vectors,
            final(self)@ == old(self)@.insert(
                hash@,
                CacheEntry { v: old(self)@[hash@].v, t: now },
            ),
    {
        proof {
            use_type_invariant(&*self);
        }
        let mut taken = EmbeddingCache { vectors: Table::new(), used: Table::new() };
        std::mem::swap(&mut taken, self);
        let EmbeddingCache { vectors, mut used } = taken;
        used.insert(hash, now);
        let next = EmbeddingCache { vectors, used };
        assert(next@ =~= old(self)@.insert(
            hash@,
            CacheEntry { v: old(self)@[hash@].v, t: now },
        ));
        *self = next;
    }

    /// Takes an entry in, and drops the oldest ones first where there is no room.
    pub fn insert(&mut self, hash: &str, v: V, now: u64)
        ensures
            final(self)@ == inserted(old(self)@, old(self).size() as int, hash@, CacheEntry { v, t: now }),
            final(self).size() == size_with(old(self).size() as int, old(self)@.contains_key(hash@)),
    {
        proof {
            use_type_invariant(&*self);
        }
        let size: usize = self.vectors.len();
        let known = self.vectors.contains(hash);
        let mut taken = EmbeddingCache { vectors: Table::new(), used: Table::new() };
        std::mem::swap(&mut taken, self);
        if !known && size >= CACHE_MAX {
            taken.evict();
        }
        proof {
            use_type_invariant(&taken);
        }
        let ghost before = taken@;
        proof {
            if !known && before.contains_key(hash@) && size >= CACHE_MAX {
                lemma_evicted_part(old(self)@, EVICTED as nat, hash@);
            }
        }
        let EmbeddingCache { mut vectors, mut used } = taken;
        vectors.insert(hash, v);
        used.insert(hash, now);
        let next = EmbeddingCache { vectors, used };
        assert(next@ =~= before.insert(hash@, CacheEntry { v, t: now }));
        *self = next;
    }

    /// The oldest entry.
    fn oldest(&self) -> (r: Option<String>)
        ensures
            match r {
                Some(key) => is_oldest(self@, key@),
                None => forall|k: Seq<char>| !self@.contains_key(k),
            },
            r is None <==> self.size() == 0,
    {
        proof {
            use_type_invariant(self);
        }
        let n: usize = self.vectors.len();
        let ghost order = self.vectors.order();
        if n == 0 {
            proof {
                assert forall|k: Seq<char>| !self@.contains_key(k) by {
                    if self.vectors@.contains_key(k) {
                        assert(order.contains(k));
                    }
                }
            }
            return None;
        }
        let (first, _) = self.vectors.entry(0);
        let mut best: String = first.clone();
        let mut best_t: u64 = match self.used.get(best.as_str()) {
            Some(t) => *t,
            None => 0,
        };
        let mut i: usize = 1;
        assert(order.take(1)[0] == best@);
        while i < n
            invariant
                1 <= i <= n == order.len(),
                order == self.vectors.order(),
                order.no_duplicates(),
                forall|k: Seq<char>| #[trigger]
                    self.vectors@.contains_key(k) <==> self.used@.contains_key(k),
                self@.contains_key(best@),
                best_t == self@[best@].t,
                order.take(i as int).contains(best@),
                forall|j: int|
                    0 <= j < i && #[trigger] order[j] != best@ ==> goes_first(
                        self@,
                        best@,
                        order[j],
                    ),
            decreases n - i,
        {
            let (key, _) = self.vectors.entry(i);
            let t: u64 = match self.used.get(key.as_str()) {
                Some(t) => *t,
                None => 0,
            };
            let ghost old_best = best@;
            let ghost here = order[i as int];
            assert(order.take(i + 1) =~= order.take(i as int).push(here));
            if t < best_t || (t == best_t && less(key.as_str(), best.as_str())) {
                best = key.clone();
                best_t = t;
                proof {
                    assert(order.take(i + 1)[i as int] == here);
                    assert forall|j: int| 0 <= j < i + 1 && #[trigger] order[j] != best@ implies goes_first(
                        self@,
                        best@,
                        order[j],
                    ) by {
                        if order[j] != old_best {
                            assert(goes_first(self@, old_best, order[j]));
                            if self@[here].t == self@[old_best].t && self@[old_best].t
                                == self@[order[j]].t {
                                lemma_precedes_transitive(here, old_best, order[j]);
                            }
                        }
                    }
                }
            } else {
                proof {
                    let m = choose|m: int|
                        0 <= m < order.take(i as int).len() && order.take(i as int)[m] == best@;
                    assert(order.take(i + 1)[m] == best@);
                    assert(order[m] == best@);
                    assert(here != best@);
                    lemma_precedes_total(here, best@);
                }
            }
            i = i + 1;
        }
        proof {
            assert forall|k: Seq<char>| #[trigger] self@.contains_key(k) && k != best@ implies goes_first(
                self@,
                best@,
                k,
            ) by {
                assert(order.contains(k));
                let j = choose|j: int| 0 <= j < order.len() && order[j] == k;
            }
        }
        Some(best)
    }

    /// Drops the oldest entries.
    fn evict(&mut self)
        ensures
            final(self)@ == evicted(old(self)@, EVICTED as nat),
            final(self).size() == (if old(self).size() < EVICTED {
                0
            } else {
                old(self).size() - EVICTED
            }),
    {
        let mut done: usize = 0;
        let ghost first = self@;
        let ghost first_size = self.size();
        while done < EVICTED
            invariant
                done <= EVICTED,
                evicted(first, EVICTED as nat) == evicted(self@, (EVICTED - done) as nat),
                self.size() == (if first_size < done {
                    0
                } else {
                    first_size - done
                }),
            decreases EVICTED - done,
        {
            let ghost before = self@;
            match self.oldest() {
                None => {
                    assert(!(exists|k: Seq<char>| before.contains_key(k)));
                },
                Some(key) => {
                    proof {
                        assert(before.contains_key(key@));
                        lemma_oldest_unique(before, key@);
                    }
                    self.forget(key.as_str());
                },
            }
            done = done + 1;
        }
    }

    fn forget(&mut self, hash: &str)
        requires
            old(self)@.contains_key(hash@),
        ensures
            final(self)@ == old(self)@.remove(hash@),
            final(self).size() == old(self).size() - 1,
    {
        proof {
            use_type_invariant(&*self);
        }
        let size: usize = self.vectors.len();
        let mut taken = EmbeddingCache { vectors: Table::new(), used: Table::new() };
        std::mem::swap(&mut taken, self);
        let EmbeddingCache { mut vectors, mut used } = taken;
        vectors.remove(hash);
        used.remove(hash);
        let next = EmbeddingCache { vectors, used };
        assert(next@ =~= old(self)@.remove(hash@));
        *self = next;
    }
}

/// What goes was not used since anything that stays.
pub proof fn law_recently_used_stay<V>(
    map: Map<Seq<char>, CacheEntry<V>>,
    count: nat,
    gone: Seq<char>,
    kept: Seq<char>,
)
    requires
        map.dom().finite(),
        map.contains_key(gone),
        !evicted(map, count).contains_key(gone),
        evicted(map, count).contains_key(kept),
    ensures
        map[gone].t <= map[kept].t,
{
    law_oldest_go_first(map, count, gone, kept);
}

/// As many entries go as were asked for, or all there are.
pub proof fn law_as_many_go_as_asked<V>(map: Map<Seq<char>, CacheEntry<V>>, count: nat)
    requires
        map.dom().finite(),
    ensures
        evicted(map, count).dom().subset_of(map.dom()),
        evicted(map, count).dom().len() == (if map.dom().len() < count {
            0
        } else {
            map.dom().len() - count
        }),
    decreases count,
{
    if count > 0 {
        if exists|k: Seq<char>| map.contains_key(k) {
            let some = choose|k: Seq<char>| map.contains_key(k);
            lemma_oldest_exists(map, some);
            let oldest = choose|k: Seq<char>| is_oldest(map, k);
            let rest = map.remove(oldest);
            assert(rest.dom() =~= map.dom().remove(oldest));
            law_as_many_go_as_asked(rest, (count - 1) as nat);
        } else {
            assert(map.dom() =~= Set::<Seq<char>>::empty());
        }
    }
}

/// A tenth goes at once when the cache is full; below that nothing goes, and what
/// is known takes no more room.
pub proof fn law_room_is_made_when_full(size: int)
    ensures
        size_with(size, true) == size,
        0 <= size < 4096 ==> size_with(size, false) == size + 1,
        size >= 4096 ==> size_with(size, false) == size - 4096int / 10 + 1,
{
}

/// Taking an entry in leaves the others as they are, as long as there is room.
pub proof fn law_others_stay_while_there_is_room<V>(
    map: Map<Seq<char>, CacheEntry<V>>,
    size: int,
    key: Seq<char>,
    entry: CacheEntry<V>,
    other: Seq<char>,
)
    requires
        other != key,
        size < 4096 || map.contains_key(key),
    ensures
        inserted(map, size, key, entry).contains_key(other) == map.contains_key(other),
        map.contains_key(other) ==> inserted(map, size, key, entry)[other] == map[other],
{
}

} // verus!
