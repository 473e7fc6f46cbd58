//! A map from strings to values that remembers the order of insertion.

use crate::text::str_eq;
use vstd::prelude::*;

verus! {

/// Keys are distinct; a key that is written again keeps its place.
#[verifier::reject_recursive_types(V)]
pub struct Table<V> {
    keys: Vec<String>,
    values: Vec<V>,
}

impl<V> View for Table<V> {
    type V = Map<Seq<char>, V>;

    closed spec fn view(&self) -> Map<Seq<char>, V> {
        Map::new(
            |k: Seq<char>| exists|i: int| 0 <= i < self.keys@.len() && #[trigger] self.keys@[i]@ == k,
            |k: Seq<char>|
                self.values@[choose|i: int|
                    0 <= i < self.keys@.len() && #[trigger] self.keys@[i]@ == k],
        )
    }
}

/// Keys in their order, without one of them.
pub open spec fn without(order: Seq<Seq<char>>, key: Seq<char>) -> Seq<Seq<char>> {
    if order.contains(key) {
        order.remove(order.index_of(key))
    } else {
        order
    }
}

impl<V> Table<V> {
    #[verifier::type_invariant]
    spec fn inv(self) -> bool {
        &&& self.keys@.len() == self.values@.len()
        &&& forall|i: int, j: int|
            0 <= i < j < self.keys@.len() ==> #[trigger] self.keys@[i]@ != #[trigger] self.keys@[j]@
    }

    /// The keys in the order in which they were first inserted.
    pub closed spec fn order(&self) -> Seq<Seq<char>> {
        self.keys@.map_values(|s: String| s@)
    }

    proof fn lemma_at(self, i: int)
        requires
            self.inv(),
            0 <= i < self.keys@.len(),
        ensures
            self@.contains_key(self.keys@[i]@),
            self@[self.keys@[i]@] == self.values@[i],
    {
        let k = self.keys@[i]@;
        let j = choose|j: int| 0 <= j < self.keys@.len() && #[trigger] self.keys@[j]@ == k;
        assert(j == i);
    }

    pub fn new() -> (r: Table<V>)
        ensures
            r@ == Map::<Seq<char>, V>::empty(),
            r.order() == Seq::<Seq<char>>::empty(),
    {
        let r = Table { keys: Vec::new(), values: Vec::new() };
        assert(r@ =~= Map::<Seq<char>, V>::empty());
        assert(r.order() =~= Seq::<Seq<char>>::empty());
        r
    }

    fn position(&self, key: &str) -> (r: Option<usize>)
        ensures
            match r {
                Some(i) => i < self.keys@.len() && self.keys@[i as int]@ == key@,
                None => forall|i: int| 0 <= i < self.keys@.len() ==> #[trigger] self.keys@[i]@ != key@,
            },
    {
        let mut i: usize = 0;
        while i < self.keys.len()
            invariant
                i <= self.keys@.len(),
                forall|j: int| 0 <= j < i ==> #[trigger] self.keys@[j]@ != key@,
            decreases self.keys@.len() - i,
        {
            if str_eq(self.keys[i].as_str(), key) {
                return Some(i);
            }
            i = i + 1;
        }
        None
    }

    pub fn get(&self, key: &str) -> (r: Option<&V>)
        ensures
            r == (if self@.contains_key(key@) { Some(&self@[key@]) } else { None }),
    {
        proof {
            use_type_invariant(self);
        }
        match self.position(key) {
            Some(i) => {
                proof {
                    self.lemma_at(i as int);
                }
                Some(&self.values[i])
            },
            None => None,
        }
    }

    pub fn contains(&self, key: &str) -> (r: bool)
        ensures
            r == self@.contains_key(key@),
    {
        self.get(key).is_some()
    }

    /// The number of keys; `order` lists each of them once.
    pub fn len(&self) -> (r: usize)
        ensures
            r == self.order().len(),
            self.order().no_duplicates(),
            forall|k: Seq<char>| #[trigger] self@.contains_key(k) <==> self.order().contains(k),
    {
        proof {
            use_type_invariant(self);
            assert forall|k: Seq<char>| #[trigger] self@.contains_key(k) implies self.order().contains(
                k,
            ) by {
                let i = choose|i: int| 0 <= i < self.keys@.len() && #[trigger] self.keys@[i]@ == k;
                assert(self.order()[i] == k);
            }
            assert forall|k: Seq<char>| self.order().contains(k) implies #[trigger] self@.contains_key(
                k,
            ) by {
                let i = choose|i: int| 0 <= i < self.order().len() && self.order()[i] == k;
                assert(self.keys@[i]@ == k);
            }
        }
        self.keys.len()
    }

    /// The `i`-th key in insertion order, with its value.
    pub fn entry(&self, i: usize) -> (r: (&String, &V))
        requires
            i < self.order().len(),
        ensures
            r.0@ == self.order()[i as int],
            self@.contains_key(r.0@),
            *r.1 == self@[r.0@],
    {
        proof {
            use_type_invariant(self);
            self.lemma_at(i as int);
        }
        (&self.keys[i], &self.values[i])
    }

    pub fn insert(&mut self, key: &str, value: V)
        ensures
            final(self)@ == old(self)@.insert(key@, value),
            old(self)@.contains_key(key@) ==> final(self).order() == old(self).order(),
            !old(self)@.contains_key(key@) ==> final(self).order() == old(self).order().push(key@),
    {
        proof {
            use_type_invariant(&*self);
        }
        let found = self.position(key);
        let mut taken = Table { keys: Vec::new(), values: Vec::new() };
        std::mem::swap(&mut taken, self);
        let Table { mut keys, mut values } = taken;
        match found {
            Some(i) => {
                values.set(i, value);
            },
            None => {
                keys.push(key.to_owned());
                values.push(value);
            },
        }
        let next = Table { keys, values };
        proof {
            assert forall|k: Seq<char>| true implies #[trigger] next@.contains_key(k) == old(
                self,
            )@.insert(key@, value).contains_key(k) && (next@.contains_key(k) ==> next@[k] == old(
                self,
            )@.insert(key@, value)[k]) by {
                if next@.contains_key(k) {
                    let i = choose|i: int|
                        0 <= i < next.keys@.len() && #[trigger] next.keys@[i]@ == k;
                    next.lemma_at(i);
                    if k != key@ {
                        assert(i < old(self).keys@.len());
                        old(self).lemma_at(i);
                    }
                }
                if old(self)@.contains_key(k) {
                    let i = choose|i: int|
                        0 <= i < old(self).keys@.len() && #[trigger] old(self).keys@[i]@ == k;
                    assert(next.keys@[i]@ == k);
                }
                if k == key@ {
                    let i = match found {
                        Some(i) => i as int,
                        None => next.keys@.len() - 1,
                    };
                    assert(next.keys@[i]@ == k);
                }
            }
            assert(next@ =~= old(self)@.insert(key@, value));
            match found {
                Some(i) => {
                    old(self).lemma_at(i as int);
                    assert(next.order() =~= old(self).order());
                },
                None => {
                    assert(next.order() =~= old(self).order().push(key@));
                },
            }
        }
        *self = next;
    }

    /// Forgets `key`; the result says whether it was there.
    pub fn remove(&mut self, key: &str) -> (r: bool)
        ensures
            final(self)@ == old(self)@.remove(key@),
            r == old(self)@.contains_key(key@),
            final(self).order() == without(old(self).order(), key@),
    {
        proof {
            use_type_invariant(&*self);
        }
        let found = self.position(key);
        match found {
            Some(at) => {
                let mut taken = Table { keys: Vec::new(), values: Vec::new() };
                std::mem::swap(&mut taken, self);
                let Table { mut keys, mut values } = taken;
                keys.remove(at);
                values.remove(at);
                let next = Table { keys, values };
                proof {
                    old(self).lemma_at(at as int);
                    assert forall|k: Seq<char>| true implies #[trigger] next@.contains_key(k) == old(
                        self,
                    )@.remove(key@).contains_key(k) && (next@.contains_key(k) ==> next@[k] == old(
                        self,
                    )@.remove(key@)[k]) by {
                        if next@.contains_key(k) {
                            let i = choose|i: int|
                                0 <= i < next.keys@.len() && #[trigger] next.keys@[i]@ == k;
                            next.lemma_at(i);
                            let j = if i < at { i } else { i + 1 };
                            assert(next.keys@[i] == old(self).keys@[j]);
                            old(self).lemma_at(j);
                        }
                        if old(self)@.contains_key(k) && k != key@ {
                            let i = choose|i: int|
                                0 <= i < old(self).keys@.len() && #[trigger] old(self).keys@[i]@
                                    == k;
                            let j = if i < at { i } else { i - 1 };
                            assert(next.keys@[j]@ == k);
                        }
                    }
                    assert(next@ =~= old(self)@.remove(key@));
                    let order = old(self).order();
                    assert(order[at as int] == key@);
                    assert(order.contains(key@));
                    let first = order.index_of(key@);
                    assert(order[first] == old(self).keys@[first]@);
                    assert(first == at);
                    assert(next.order() =~= order.remove(at as int));
                }
                *self = next;
                true
            },
            None => {
                assert(self@ =~= self@.remove(key@));
                proof {
                    let order = self.order();
                    if order.contains(key@) {
                        let i = choose|i: int| 0 <= i < order.len() && order[i] == key@;
                        assert(self.keys@[i]@ == key@);
                    }
                }
                false
            },
        }
    }
}

} // verus!
