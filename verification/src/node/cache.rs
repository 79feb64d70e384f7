//! Keys and counters of the document cache.

use vstd::prelude::*;

use crate::clock::Span;
use crate::text;

verus! {

/// How many documents the cache holds, and for how long.
#[derive(Clone, Copy, Debug)]
pub struct CacheConfig {
    pub max_capacity: u64,
    pub ttl: Span,
}

impl Default for CacheConfig {
    fn default() -> (c: Self)
        ensures
            c.max_capacity == 10_000,
            c.ttl.nanos == 60 * 1_000_000_000,
    {
        CacheConfig { max_capacity: 10_000, ttl: Span::from_secs(60) }
    }
}

/// The key of a document in the cache: its collection, a null character and its
/// id.
#[derive(Debug)]
pub struct CacheKey {
    pub text: String,
}

/// The text of a cache key.
pub open spec fn cache_key(collection: Seq<char>, id: Seq<char>) -> Seq<char> {
    collection.push('\0') + id
}

impl CacheKey {
    /// The key of the document `doc_id` in `collection`.
    pub fn new(collection: &str, doc_id: &str) -> (k: Self)
        ensures
            k.text@ == cache_key(collection@, doc_id@),
    {
        let mut key = collection.to_owned();
        key.push('\0');
        key.append(doc_id);
        CacheKey { text: key }
    }

    /// Whether the key belongs to `collection`.
    pub fn is_in(&self, collection: &str) -> (r: bool)
        ensures
            r == text::begins_with(self.text@, collection@.push('\0')),
    {
        let mut prefix = collection.to_owned();
        prefix.push('\0');
        text::starts_with(self.text.as_str(), prefix.as_str())
    }
}

/// How often the cache held what was asked for.
///
/// The counters wrap around at their greatest value.
#[derive(Clone, Copy, Debug)]
pub struct CacheCounters {
    pub hits: u64,
    pub misses: u64,
}

/// `n` and one, around at the greatest value.
pub open spec fn next_count(n: u64) -> u64 {
    if n == u64::MAX {
        0
    } else {
        (n + 1) as u64
    }
}

impl CacheCounters {
    /// Nothing has been asked for.
    pub fn new() -> (c: Self)
        ensures
            c.hits == 0,
            c.misses == 0,
    {
        CacheCounters { hits: 0, misses: 0 }
    }

    /// Count one look into the cache.
    pub fn record(&mut self, hit: bool)
        ensures
            hit ==> final(self).hits == next_count(old(self).hits) && final(self).misses == old(
                self,
            ).misses,
            !hit ==> final(self).misses == next_count(old(self).misses) && final(self).hits == old(
                self,
            ).hits,
    {
        if hit {
            self.hits = self.hits.wrapping_add(1);
        } else {
            self.misses = self.misses.wrapping_add(1);
        }
    }

    /// The number of hits.
    pub fn hit_count(&self) -> (n: u64)
        ensures
            n == self.hits,
    {
        self.hits
    }

    /// The number of misses.
    pub fn miss_count(&self) -> (n: u64)
        ensures
            n == self.misses,
    {
        self.misses
    }
}

/// Two documents have the same key only if they are the same document, as long as
/// no collection has a null character in its name.
pub proof fn keys_tell_documents_apart(
    collection_a: Seq<char>,
    id_a: Seq<char>,
    collection_b: Seq<char>,
    id_b: Seq<char>,
)
    requires
        !collection_a.contains('\0'),
        !collection_b.contains('\0'),
        cache_key(collection_a, id_a) == cache_key(collection_b, id_b),
    ensures
        collection_a == collection_b,
        id_a == id_b,
{
    let k = cache_key(collection_a, id_a);
    let m = cache_key(collection_b, id_b);
    let a = collection_a.len() as int;
    let b = collection_b.len() as int;
    assert(k[a] == '\0');
    assert(m[b] == '\0');
    if a < b {
        assert(m[a] == collection_b[a]);
        assert(collection_b.contains(collection_b[a]));
    }
    if b < a {
        assert(k[b] == collection_a[b]);
        assert(collection_a.contains(collection_a[b]));
    }
    assert forall|i: int| 0 <= i < a implies collection_a[i] == collection_b[i] by {
        assert(k[i] == m[i]);
    }
    assert(collection_a =~= collection_b);
    assert(k.len() == a + 1 + id_a.len());
    assert(m.len() == b + 1 + id_b.len());
    assert forall|i: int| 0 <= i < id_a.len() implies id_a[i] == id_b[i] by {
        assert(k[a + 1 + i] == m[a + 1 + i]);
    }
    assert(id_a =~= id_b);
}

/// A key belongs to a collection exactly if it is the key of one of its
/// documents, as long as no collection has a null character in its name.
pub proof fn keys_belong_to_their_collection(
    owner: Seq<char>,
    id: Seq<char>,
    collection: Seq<char>,
)
    requires
        !owner.contains('\0'),
        !collection.contains('\0'),
    ensures
        text::begins_with(cache_key(owner, id), collection.push('\0')) <==> owner == collection,
{
    let k = cache_key(owner, id);
    let p = collection.push('\0');
    if owner == collection {
        assert(k.subrange(0, p.len() as int) =~= p);
    }
    if text::begins_with(k, p) {
        let rest = k.skip(p.len() as int);
        assert(k =~= p + rest) by {
            assert forall|i: int| 0 <= i < p.len() implies k[i] == p[i] by {
                assert(k.subrange(0, p.len() as int)[i] == k[i]);
            }
        }
        keys_tell_documents_apart(owner, id, collection, rest);
    }
}

// ---------------------------------------------------------------------------
// Laws
// ---------------------------------------------------------------------------

/// A counter goes up by one, and around at its greatest value.
pub proof fn counters_go_up_by_one(n: u64)
    ensures
        n < u64::MAX ==> next_count(n) == n + 1,
        n == u64::MAX ==> next_count(n) == 0,
{
}

/// A key holds the collection and the identifier, with one null character between them.
pub proof fn keys_hold_collection_and_identifier(collection: Seq<char>, id: Seq<char>)
    ensures
        cache_key(collection, id).len() == collection.len() + 1 + id.len(),
        cache_key(collection, id).take(collection.len() as int) == collection,
        cache_key(collection, id)[collection.len() as int] == '\0',
        cache_key(collection, id).skip((collection.len() + 1) as int) == id,
{
    assert(cache_key(collection, id).take(collection.len() as int) =~= collection);
    assert(cache_key(collection, id).skip((collection.len() + 1) as int) =~= id);
}

} // verus!
