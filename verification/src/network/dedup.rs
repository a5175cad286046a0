//! The cache of message ids that were seen of late. A message whose id is
//! in it was processed already and is dropped.

use vstd::prelude::*;

verus! {

/// Number of message ids that the cache remembers.
pub const SEEN_CAPACITY: usize = 10_000;

/// Declares `lru::DefaultHasher`, the hasher of a cache made by
/// `lru::LruCache::new`. Nothing is said of it.
#[verifier::external_type_specification]
#[verifier::external_body]
pub struct ExDefaultHasher(lru::DefaultHasher);

/// Declares `lru::LruCache`. What a cache holds is named by `lru_keys` and
/// `lru_limit`.
#[verifier::external_type_specification]
#[verifier::external_body]
#[verifier::reject_recursive_types(K)]
#[verifier::reject_recursive_types(V)]
#[verifier::reject_recursive_types(S)]
pub struct ExLruCache<K, V, S>(lru::LruCache<K, V, S>);

/// The keys that a cache holds, from the least recently used to the most
/// recently used.
pub uninterp spec fn lru_keys(cache: lru::LruCache<Vec<u8>, ()>) -> Seq<Seq<u8>>;

/// The number of keys that a cache was made to hold at most.
pub uninterp spec fn lru_limit(cache: lru::LruCache<Vec<u8>, ()>) -> nat;

/// What `put` makes of the keys of a cache: a key that is there moves to the
/// most recent place; a new key goes there, and where the cache is full the
/// least recently used key leaves for it.
pub open spec fn keys_after_put(keys: Seq<Seq<u8>>, limit: nat, key: Seq<u8>) -> Seq<Seq<u8>> {
    if keys.contains(key) {
        keys.remove(keys.index_of(key)).push(key)
    } else if keys.len() < limit {
        keys.push(key)
    } else {
        keys.drop_first().push(key)
    }
}

/// Calls `lru::LruCache::new`, which makes an empty cache for at most `limit`
/// keys.
#[verifier::external_body]
fn lru_new(limit: usize) -> (cache: lru::LruCache<Vec<u8>, ()>)
    requires
        limit > 0,
    ensures
        lru_keys(cache) == Seq::<Seq<u8>>::empty(),
        lru_limit(cache) == limit,
{
    lru::LruCache::new(std::num::NonZeroUsize::new(limit).unwrap())
}

/// Calls `lru::LruCache::contains`, which looks the key up and leaves the
/// order of use as it is.
#[verifier::external_body]
fn lru_contains(cache: &lru::LruCache<Vec<u8>, ()>, key: &Vec<u8>) -> (found: bool)
    ensures
        found == lru_keys(*cache).contains(key@),
{
    cache.contains(key)
}

/// Calls `lru::LruCache::put`, which makes the key the most recently used
/// one and, for a new key in a full cache, removes the least recently used.
#[verifier::external_body]
fn lru_put(cache: &mut lru::LruCache<Vec<u8>, ()>, key: Vec<u8>)
    ensures
        lru_keys(*final(cache)) == keys_after_put(
            lru_keys(*old(cache)),
            lru_limit(*old(cache)),
            key@,
        ),
        lru_limit(*final(cache)) == lru_limit(*old(cache)),
{
    cache.put(key, ());
}

/// The message ids seen of late, at most `SEEN_CAPACITY` of them.
pub struct SeenCache {
    ids: lru::LruCache<Vec<u8>, ()>,
}

impl View for SeenCache {
    type V = Seq<Seq<u8>>;

    /// The ids, from the least recently seen to the most recently seen.
    closed spec fn view(&self) -> Seq<Seq<u8>> {
        lru_keys(self.ids)
    }
}

/// Putting a key into a list without duplicates and within the limit leaves
/// such a list that holds the key.
pub proof fn lemma_keys_after_put(keys: Seq<Seq<u8>>, limit: nat, key: Seq<u8>)
    requires
        keys.no_duplicates(),
        keys.len() <= limit,
        limit > 0,
    ensures
        keys_after_put(keys, limit, key).no_duplicates(),
        keys_after_put(keys, limit, key).len() <= limit,
        keys_after_put(keys, limit, key).contains(key),
        keys_after_put(keys, limit, key).last() == key,
        forall|other: Seq<u8>|
            keys.contains(other) && keys.len() < limit ==> #[trigger] keys_after_put(
                keys,
                limit,
                key,
            ).contains(other),
{
    let after = keys_after_put(keys, limit, key);
    if keys.contains(key) {
        let at = keys.index_of(key);
        let rest = keys.remove(at);
        assert forall|i: int| 0 <= i < rest.len() implies rest[i] != key by {
            if i < at {
                assert(rest[i] == keys[i]);
            } else {
                assert(rest[i] == keys[i + 1]);
            }
        }
        assert forall|i: int, j: int| 0 <= i < j < rest.len() implies rest[i] != rest[j] by {
            let a = if i < at { i } else { i + 1 };
            let b = if j < at { j } else { j + 1 };
            assert(rest[i] == keys[a] && rest[j] == keys[b]);
        }
        assert(after.no_duplicates());
        assert(after[after.len() - 1] == key);
        assert forall|other: Seq<u8>| keys.contains(other) implies after.contains(other) by {
            let k = keys.index_of(other);
            if k == at {
                assert(after[after.len() - 1] == other);
            } else if k < at {
                assert(after[k] == other);
            } else {
                assert(after[k - 1] == other);
            }
        }
    } else if keys.len() < limit {
        assert(after[after.len() - 1] == key);
        assert forall|other: Seq<u8>| keys.contains(other) implies after.contains(other) by {
            let k = keys.index_of(other);
            assert(after[k] == other);
        }
    } else {
        let rest = keys.drop_first();
        assert forall|i: int| 0 <= i < rest.len() implies rest[i] != key by {
            assert(rest[i] == keys[i + 1]);
            assert(keys.contains(keys[i + 1]));
        }
        assert(after[after.len() - 1] == key);
    }
}

impl SeenCache {
    /// No id is in the cache twice, and there are at most `SEEN_CAPACITY`.
    pub closed spec fn wf(&self) -> bool {
        &&& lru_keys(self.ids).no_duplicates()
        &&& lru_keys(self.ids).len() <= SEEN_CAPACITY
        &&& lru_limit(self.ids) == SEEN_CAPACITY
    }

    /// What well-formedness says of the ids.
    pub proof fn lemma_wf(&self)
        requires
            self.wf(),
        ensures
            self@.no_duplicates(),
            self@.len() <= SEEN_CAPACITY,
    {
    }

    /// An empty cache.
    pub fn new() -> (cache: Self)
        ensures
            cache.wf(),
            cache@ == Seq::<Seq<u8>>::empty(),
    {
        SeenCache { ids: lru_new(SEEN_CAPACITY) }
    }

    /// Whether the id was seen of late. The cache stays as it is.
    pub fn contains(&self, id: &Vec<u8>) -> (seen: bool)
        ensures
            seen == self@.contains(id@),
    {
        lru_contains(&self.ids, id)
    }

    /// Remembers the id as the most recently seen one. Where the cache is
    /// full and the id is new, the least recently seen id is forgotten.
    pub fn insert(&mut self, id: Vec<u8>)
        requires
            old(self).wf(),
        ensures
            final(self).wf(),
            final(self)@ == keys_after_put(old(self)@, SEEN_CAPACITY as nat, id@),
            final(self)@.contains(id@),
    {
        proof {
            lemma_keys_after_put(self@, SEEN_CAPACITY as nat, id@);
        }
        lru_put(&mut self.ids, id);
    }
}

} // verus!
