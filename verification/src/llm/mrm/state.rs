//! Counts of the calls that are under way.

use crate::table::Table;
use vstd::prelude::*;

verus! {

/// Slots in use, by pool. The limit is handed in with every request, so that a
/// changed setting counts at once.
pub struct Pools {
    counts: Table<usize>,
}

impl View for Pools {
    type V = Map<Seq<char>, usize>;

    closed spec fn view(&self) -> Map<Seq<char>, usize> {
        self.counts@
    }
}

/// One slot of a pool, from `try_acquire` to `release`.
#[derive(Debug)]
pub struct PoolPermit {
    key: String,
}

impl View for PoolPermit {
    type V = Seq<char>;

    closed spec fn view(&self) -> Seq<char> {
        self.key@
    }
}

/// The slots of a pool that are in use.
pub open spec fn used(pools: Map<Seq<char>, usize>, key: Seq<char>) -> usize {
    if pools.contains_key(key) {
        pools[key]
    } else {
        0
    }
}

/// A pool has at least one slot.
pub open spec fn slots(limit: usize) -> usize {
    if limit == 0 {
        1
    } else {
        limit
    }
}

/// The pools with one slot less in use under `key`.
pub open spec fn freed(pools: Map<Seq<char>, usize>, key: Seq<char>) -> Map<Seq<char>, usize> {
    if pools.contains_key(key) && pools[key] > 0 {
        pools.insert(key, (pools[key] - 1) as usize)
    } else {
        pools
    }
}

impl Pools {
    pub fn new() -> (r: Pools)
        ensures
            r@ == Map::<Seq<char>, usize>::empty(),
    {
        Pools { counts: Table::new() }
    }

    pub fn in_flight(&self, key: &str) -> (r: usize)
        ensures
            r == used(self@, key@),
    {
        match self.counts.get(key) {
            Some(n) => *n,
            None => 0,
        }
    }

    /// Takes a slot where one is free.
    pub fn try_acquire(&mut self, key: &str, limit: usize) -> (r: Option<PoolPermit>)
        ensures
            if used(old(self)@, key@) >= slots(limit) {
                &&& r is None
                &&& final(self)@ == old(self)@
            } else {
                &&& r matches Some(permit)
                &&& permit@ == key@
                &&& final(self)@ == taken(old(self)@, key@)
            },
    {
        let count: usize = self.in_flight(key);
        let capacity: usize = if limit == 0 {
            1
        } else {
            limit
        };
        if count >= capacity {
            return None;
        }
        self.counts.insert(key, count + 1);
        Some(PoolPermit { key: key.to_owned() })
    }

    /// Gives a slot back.
    pub fn release(&mut self, permit: PoolPermit)
        ensures
            final(self)@ == freed(old(self)@, permit@),
    {
        let found: Option<usize> = match self.counts.get(permit.key.as_str()) {
            Some(n) => Some(*n),
            None => None,
        };
        if let Some(n) = found {
            if n > 0 {
                self.counts.insert(permit.key.as_str(), n - 1);
            }
        }
    }

    pub fn len(&self) -> (r: usize)
        ensures
            r == self.keys().len(),
    {
        self.counts.len()
    }

    /// The pools in the order in which they were first used.
    pub closed spec fn keys(&self) -> Seq<Seq<char>> {
        self.counts.order()
    }

    pub fn entry(&self, i: usize) -> (r: (&String, usize))
        requires
            i < self.keys().len(),
        ensures
            r.0@ == self.keys()[i as int],
            r.1 == used(self@, r.0@),
    {
        let (key, n) = self.counts.entry(i);
        (key, *n)
    }
}

/// The pools with one slot more in use under `key`.
pub open spec fn taken(pools: Map<Seq<char>, usize>, key: Seq<char>) -> Map<Seq<char>, usize> {
    pools.insert(key, (used(pools, key) + 1) as usize)
}

/// A pool that grants a slot stays within the limit it was asked with. One that
/// is over a lowered limit grants none until enough slots came back.
pub proof fn law_limit_holds_at_every_grant(pools: Map<Seq<char>, usize>, key: Seq<char>, limit: usize)
    requires
        used(pools, key) < slots(limit),
    ensures
        used(taken(pools, key), key) <= slots(limit),
{
}

/// A slot that comes back is free again, and no other pool notices either.
pub proof fn law_slots_come_back(pools: Map<Seq<char>, usize>, key: Seq<char>, other: Seq<char>)
    requires
        used(pools, key) < usize::MAX,
    ensures
        used(freed(taken(pools, key), key), key) == used(pools, key),
        other != key ==> used(taken(pools, key), other) == used(pools, other),
        other != key ==> used(freed(taken(pools, key), key), other) == used(pools, other),
{
}

} // verus!
