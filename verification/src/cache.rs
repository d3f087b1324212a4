//! The bounded store of distances that were computed before.
//!
//! The store is an `lru::LruCache`. The verifier sees it through
//! [`cache_entries`], its entries from the most recently used to the least
//! recently used, and [`cache_limit`], the number of entries it holds at most.

use vstd::prelude::*;
use crate::cells::Cell;

verus! {

/// The number of entries that a cache holds unless told otherwise.
pub const DEFAULT_CAPACITY: usize = 10_000;

/// The largest number of entries that a cache may be made for.
pub const MAX_CAPACITY: usize = 1_000_000;

/// A query: the cell a walk starts from, then the cell it leads to.
pub type Query = (Cell, Cell);

/// An entry: a query and the distance that was computed for it.
pub type Entry = (Query, Option<u32>);

/// The least-recently-used cache of the `lru` crate. Nothing is known of a
/// value of this type but what the operations in this file state.
#[verifier::external_type_specification]
#[verifier::external_body]
#[verifier::reject_recursive_types(K)]
#[verifier::reject_recursive_types(V)]
#[verifier::reject_recursive_types(S)]
pub struct ExLruCache<K, V, S>(lru::LruCache<K, V, S>);

/// The hasher that an `lru::LruCache` uses unless it is given another.
#[verifier::external_type_specification]
#[verifier::external_body]
pub struct ExDefaultHasher(lru::DefaultHasher);

/// The entries of a cache, the most recently used first.
pub uninterp spec fn cache_entries(
    c: lru::LruCache<((usize, usize), (usize, usize)), Option<u32>>,
) -> Seq<(((usize, usize), (usize, usize)), Option<u32>)>;

/// The number of entries that a cache holds at most.
pub uninterp spec fn cache_limit(c: lru::LruCache<((usize, usize), (usize, usize)), Option<u32>>) -> nat;

/// Whether some entry answers the query.
pub open spec fn has_query(entries: Seq<Entry>, q: Query) -> bool {
    exists|i: int| 0 <= i < entries.len() && (#[trigger] entries[i]).0 == q
}

/// The entries after the `i`-th was used: it moves to the front.
pub open spec fn promoted(entries: Seq<Entry>, i: int) -> Seq<Entry> {
    seq![entries[i]] + entries.remove(i)
}

/// The entries after a new one was put in: it stands at the front, and where
/// the cache was full the least recently used entry has left.
pub open spec fn admitted(entries: Seq<Entry>, limit: nat, e: Entry) -> Seq<Entry> {
    seq![e] + if 0 < entries.len() == limit { entries.drop_last() } else { entries }
}

/// `lru::LruCache::new`: an empty cache for at most `capacity` entries.
#[verifier::external_body]
pub(crate) fn lru_new(capacity: usize) -> (c: lru::LruCache<Query, Option<u32>>)
    requires
        0 < capacity <= MAX_CAPACITY,
    ensures
        cache_entries(c) == Seq::<Entry>::empty(),
        cache_limit(c) == capacity,
{
    lru::LruCache::new(std::num::NonZeroUsize::new(capacity).unwrap())
}

/// `lru::LruCache::get`: the distance stored for the query, if any; an entry
/// that was found becomes the most recently used, and nothing else changes.
#[verifier::external_body]
pub(crate) fn lru_get(c: &mut lru::LruCache<Query, Option<u32>>, q: Query) -> (r: Option<Option<u32>>)
    ensures
        cache_limit(*final(c)) == cache_limit(*old(c)),
        forall|i: int|
            0 <= i < cache_entries(*old(c)).len() && (#[trigger] cache_entries(*old(c))[i]).0 == q
                ==> r == Some(cache_entries(*old(c))[i].1) && cache_entries(*final(c)) == promoted(
                cache_entries(*old(c)),
                i,
            ),
        !has_query(cache_entries(*old(c)), q) ==> r is None && cache_entries(*final(c))
            == cache_entries(*old(c)),
{
    c.get(&q).copied()
}

/// `lru::LruCache::put`: stores the distance for the query as the most
/// recently used entry. An entry for the same query is replaced; otherwise,
/// where the cache is full, the least recently used entry leaves.
#[verifier::external_body]
pub(crate) fn lru_put(c: &mut lru::LruCache<Query, Option<u32>>, q: Query, d: Option<u32>)
    ensures
        cache_limit(*final(c)) == cache_limit(*old(c)),
        forall|i: int|
            0 <= i < cache_entries(*old(c)).len() && (#[trigger] cache_entries(*old(c))[i]).0 == q
                ==> cache_entries(*final(c)) == seq![(q, d)] + cache_entries(*old(c)).remove(i),
        !has_query(cache_entries(*old(c)), q) ==> cache_entries(*final(c)) == admitted(
            cache_entries(*old(c)),
            cache_limit(*old(c)),
            (q, d),
        ),
{
    c.put(q, d);
}

/// A bounded store of distances, owned by whoever runs the search. When it
/// is full, the entry that was used least recently makes room.
pub struct DistanceCache {
    store: lru::LruCache<Query, Option<u32>>,
}

impl View for DistanceCache {
    type V = Seq<Entry>;

    /// The entries, the most recently used first.
    closed spec fn view(&self) -> Seq<Entry> {
        cache_entries(self.store)
    }
}

impl DistanceCache {
    /// The number of entries that the cache holds at most.
    pub closed spec fn limit(&self) -> nat {
        cache_limit(self.store)
    }

    /// An empty cache of the usual size.
    pub fn new() -> (c: Self)
        ensures
            c@ == Seq::<Entry>::empty(),
            c.limit() == DEFAULT_CAPACITY,
    {
        DistanceCache { store: lru_new(DEFAULT_CAPACITY) }
    }

    /// An empty cache for at most `capacity` entries.
    pub fn with_capacity(capacity: usize) -> (c: Self)
        requires
            0 < capacity <= MAX_CAPACITY,
        ensures
            c@ == Seq::<Entry>::empty(),
            c.limit() == capacity,
    {
        DistanceCache { store: lru_new(capacity) }
    }

    /// The distance stored for the query, if any. An entry that was found
    /// becomes the most recently used; nothing else changes.
    pub fn lookup(&mut self, q: Query) -> (r: Option<Option<u32>>)
        ensures
            final(self).limit() == old(self).limit(),
            r is Some <==> has_query(old(self)@, q),
            forall|i: int|
                0 <= i < old(self)@.len() && (#[trigger] old(self)@[i]).0 == q ==> r == Some(
                    old(self)@[i].1,
                ) && final(self)@ == promoted(old(self)@, i),
            !has_query(old(self)@, q) ==> final(self)@ == old(self)@,
    {
        lru_get(&mut self.store, q)
    }

    /// Stores the distance for the query as the most recently used entry. An
    /// entry for the same query is replaced; otherwise, where the cache is
    /// full, the least recently used entry leaves.
    pub fn store(&mut self, q: Query, d: Option<u32>)
        ensures
            final(self).limit() == old(self).limit(),
            forall|i: int|
                0 <= i < old(self)@.len() && (#[trigger] old(self)@[i]).0 == q ==> final(self)@
                    == seq![(q, d)] + old(self)@.remove(i),
            !has_query(old(self)@, q) ==> final(self)@ == admitted(
                old(self)@,
                old(self).limit(),
                (q, d),
            ),
    {
        lru_put(&mut self.store, q, d)
    }
}

} // verus!
