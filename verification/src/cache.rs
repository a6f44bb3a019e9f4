use crate::error::StorageError;
use crate::record::Payload;
use std::collections::HashMap;
use std::sync::Arc;
use std::sync::Weak;
use vstd::prelude::*;
use vstd::std_specs::hash::*;
use vstd::std_specs::iter::IteratorSpec;

verus! {

/// A handle on shared payload bytes that does not keep them alive
/// (`std::sync::Weak<Vec<u8>>`).
#[verifier::external_body]
pub struct WeakBytes {
    handle: Weak<Vec<u8>>,
}

/// The bytes of the allocation that a weak handle observes. They are fixed
/// when the handle is made: shared bytes are never modified.
pub uninterp spec fn weak_target(handle: WeakBytes) -> Seq<u8>;

/// `Arc::downgrade`: a weak handle on the allocation behind `bytes`.
#[verifier::external_body]
fn downgrade(bytes: &Arc<Vec<u8>>) -> (handle: WeakBytes)
    ensures
        weak_target(handle) == bytes@,
{
    WeakBytes { handle: Arc::downgrade(bytes) }
}

/// `Weak::upgrade`: an owning handle on the observed allocation, if any
/// owner is left. Whether one is left depends on the rest of the program,
/// so nothing is promised about which of the two answers comes back.
#[verifier::external_body]
fn upgrade(handle: &WeakBytes) -> (r: Option<Arc<Vec<u8>>>)
    ensures
        r matches Some(bytes) ==> bytes@ == weak_target(*handle),
{
    handle.handle.upgrade()
}

/// `Weak::strong_count`: how many owners the observed allocation has at
/// the moment of the call.
#[verifier::external_body]
fn strong_count(handle: &WeakBytes) -> usize {
    handle.handle.strong_count()
}

/// Process-local cache from a key to payload bytes that some owner still
/// holds. The cache never owns bytes itself.
///
/// Its value is the map from each key to the bytes that the key's handle
/// observes; an entry may have lost all its owners, in which case a lookup
/// misses although the key is present.
pub struct PayloadCache {
    entries: HashMap<u64, WeakBytes>,
}

impl View for PayloadCache {
    type V = Map<u64, Seq<u8>>;

    closed spec fn view(&self) -> Map<u64, Seq<u8>> {
        self.entries@.map_values(|handle: WeakBytes| weak_target(handle))
    }
}

/// Whether two byte strings are equal.
pub fn same_bytes(a: &Vec<u8>, b: &Vec<u8>) -> (r: bool)
    ensures
        r == (a@ == b@),
{
    if a.len() != b.len() {
        return false;
    }
    let mut i: usize = 0;
    while i < a.len()
        invariant
            a.len() == b.len(),
            i <= a.len(),
            forall|j: int| 0 <= j < i ==> a@[j] == b@[j],
        decreases a.len() - i,
    {
        if a[i] != b[i] {
            return false;
        }
        i += 1;
    }
    assert(a@ =~= b@);
    true
}

/// The keys of a census, in order. A census pairs each key of a cache
/// with the number of owners that the key's bytes had when they were
/// counted.
pub open spec fn census_keys(counts: Seq<(u64, usize)>) -> Seq<u64> {
    Seq::new(counts.len(), |i: int| counts[i].0)
}

/// Whether `counts` is a census of `cache`: it names each key of the cache
/// exactly once. The counts themselves are whatever was found.
pub open spec fn census_of(cache: Map<u64, Seq<u8>>, counts: Seq<(u64, usize)>) -> bool {
    census_keys(counts).no_duplicates() && census_keys(counts).to_set() == cache.dom()
}

/// The keys of a census whose bytes had no owner, in the order of the
/// census.
pub open spec fn unowned_keys(counts: Seq<(u64, usize)>) -> Seq<u64>
    decreases counts.len(),
{
    if counts.len() == 0 {
        Seq::empty()
    } else {
        let before = unowned_keys(counts.drop_last());
        if counts.last().1 == 0 {
            before.push(counts.last().0)
        } else {
            before
        }
    }
}

/// Whether `after` is `before` pruned: there is a census of `before` such
/// that `after` is `before` without the keys whose bytes had no owner.
///
/// The counts of a census are whatever was found, so by itself this says
/// no more than that `after` is `before` without some of its keys. Which
/// keys go for given counts is said by [`unowned_keys`].
pub open spec fn pruned(before: Map<u64, Seq<u8>>, after: Map<u64, Seq<u8>>) -> bool {
    exists|counts: Seq<(u64, usize)>| #[trigger]
        census_of(before, counts) && after == before.remove_keys(unowned_keys(counts).to_set())
}

/// The unowned keys of a census are keys of the census with count zero,
/// and each occurs once if each key of the census does.
pub proof fn lemma_unowned_keys(counts: Seq<(u64, usize)>)
    ensures
        forall|k: u64|
            unowned_keys(counts).contains(k) <==> exists|j: int|
                0 <= j < counts.len() && #[trigger] counts[j] == (k, 0usize),
        census_keys(counts).no_duplicates() ==> unowned_keys(counts).no_duplicates(),
    decreases counts.len(),
{
    if counts.len() > 0 {
        let rest = counts.drop_last();
        let last = counts.last();
        lemma_unowned_keys(rest);
        let before = unowned_keys(rest);
        let now = unowned_keys(counts);
        assert forall|k: u64| now.contains(k) <==> exists|j: int|
            0 <= j < counts.len() && #[trigger] counts[j] == (k, 0usize) by {
            if now.contains(k) {
                let i = choose|i: int| 0 <= i < now.len() && now[i] == k;
                if last.1 == 0 && i == before.len() {
                    assert(counts[counts.len() - 1] == (k, 0usize));
                } else {
                    assert(before[i] == k);
                    assert(before.contains(k));
                    let j = choose|j: int| 0 <= j < rest.len() && #[trigger] rest[j] == (k, 0usize);
                    assert(counts[j] == (k, 0usize));
                }
            }
            if exists|j: int| 0 <= j < counts.len() && #[trigger] counts[j] == (k, 0usize) {
                let j = choose|j: int| 0 <= j < counts.len() && #[trigger] counts[j] == (k, 0usize);
                if j < rest.len() {
                    assert(rest[j] == (k, 0usize));
                    assert(before.contains(k));
                    let i = choose|i: int| 0 <= i < before.len() && before[i] == k;
                    assert(now[i] == k);
                } else {
                    assert(now[before.len() as int] == k);
                }
            }
        }
        if census_keys(counts).no_duplicates() {
            assert(census_keys(rest) =~= census_keys(counts).drop_last());
            assert(census_keys(rest).no_duplicates());
            if last.1 == 0 {
                assert(!before.contains(last.0)) by {
                    if before.contains(last.0) {
                        let j = choose|j: int|
                            0 <= j < rest.len() && #[trigger] rest[j] == (last.0, 0usize);
                        assert(census_keys(counts)[j] == census_keys(counts)[counts.len() - 1]);
                    }
                }
                assert forall|a: int, b: int|
                    0 <= a < now.len() && 0 <= b < now.len() && a != b implies now[a]
                    != now[b] by {
                    if a < before.len() && b < before.len() {
                        assert(before[a] != before[b]);
                    } else if a < before.len() {
                        assert(before.contains(before[a]));
                    } else {
                        assert(before.contains(before[b]));
                    }
                }
            }
        }
    }
}

impl PayloadCache {
    /// An empty cache.
    pub fn new() -> (cache: Self)
        ensures
            cache@ == Map::<u64, Seq<u8>>::empty(),
    {
        let cache = PayloadCache { entries: HashMap::new() };
        assert(cache@ =~= Map::<u64, Seq<u8>>::empty());
        cache
    }

    /// Number of entries, whether or not their bytes still have an owner.
    pub fn len(&self) -> (n: usize)
        ensures
            n == self@.len(),
    {
        broadcast use group_hash_axioms;

        assert(self@.dom() =~= self.entries@.dom());
        self.entries.len()
    }

    /// The bytes cached under `key`, if the entry still has an owner.
    ///
    /// A hit returns the entry's bytes. A key without an entry is a miss.
    /// For a key with an entry the answer is that of `Weak::upgrade` on the
    /// entry's handle: a miss if the bytes have been released.
    pub fn lookup(&self, key: u64) -> (r: Option<Arc<Vec<u8>>>)
        ensures
            r matches Some(bytes) ==> self@.contains_key(key) && self@[key] == bytes@,
    {
        broadcast use group_hash_axioms;

        match self.entries.get(&key) {
            Some(handle) => upgrade(handle),
            None => None,
        }
    }

    /// Records that `bytes` are the bytes of `key`, replacing any entry.
    pub fn remember(&mut self, key: u64, bytes: &Arc<Vec<u8>>)
        ensures
            final(self)@ == old(self)@.insert(key, bytes@),
    {
        broadcast use group_hash_axioms;

        self.entries.insert(key, downgrade(bytes));
        assert(self@ =~= old(self)@.insert(key, bytes@));
    }

    /// Drops the entry of `key`, if there is one.
    pub fn forget(&mut self, key: u64)
        ensures
            final(self)@ == old(self)@.remove(key),
    {
        broadcast use group_hash_axioms;

        self.entries.remove(&key);
        assert(self@ =~= old(self)@.remove(key));
    }

    /// The payload `id`, given what a lookup of `id` found.
    ///
    /// Found bytes are the payload: the cache stays as it is and `loader`
    /// is not called. Otherwise `loader` is called once: what it loads is
    /// returned and remembered under `id`; its error is handed on and the
    /// cache stays as it is.
    pub fn found_or_load<F: FnOnce() -> Result<Vec<u8>, StorageError>>(
        &mut self,
        id: u64,
        found: Option<Arc<Vec<u8>>>,
        loader: F,
    ) -> (r: Result<Payload, StorageError>)
        requires
            call_requires(loader, ()),
        ensures
            match found {
                Some(bytes) => r == Ok::<Payload, StorageError>(Payload { id, bytes }) && final(self)@ == old(self)@,
                None => match r {
                    Ok(payload) => {
                        &&& payload.id == id
                        &&& final(self)@ == old(self)@.insert(id, payload.bytes@)
                        &&& call_ensures(loader, (), Ok::<Vec<u8>, StorageError>(*payload.bytes))
                    },
                    Err(e) => final(self)@ == old(self)@ && call_ensures(
                        loader,
                        (),
                        Err::<Vec<u8>, StorageError>(e),
                    ),
                },
            },
    {
        match found {
            Some(bytes) => Ok(Payload { id, bytes }),
            None => match loader() {
                Ok(loaded) => {
                    let bytes = Arc::new(loaded);
                    self.remember(id, &bytes);
                    Ok(Payload { id, bytes })
                },
                Err(e) => Err(e),
            },
        }
    }

    /// The payload `id`, from the cache if its bytes still have an owner,
    /// else from `loader`: what [`PayloadCache::found_or_load`] gives for
    /// what [`PayloadCache::lookup`] finds.
    ///
    /// A hit leaves the cache as it is and does not call `loader`. On a miss
    /// `loader` is called once: what it loads is returned and remembered
    /// under `id`; its error is handed on and the cache stays as it is.
    pub fn get_or_load<F: FnOnce() -> Result<Vec<u8>, StorageError>>(
        &mut self,
        id: u64,
        loader: F,
    ) -> (r: Result<Payload, StorageError>)
        requires
            call_requires(loader, ()),
        ensures
            match r {
                Ok(payload) => {
                    &&& payload.id == id
                    &&& final(self)@ == old(self)@.insert(id, payload.bytes@)
                    &&& (old(self)@.contains_key(id) && old(self)@[id] == payload.bytes@)
                        || call_ensures(
                        loader,
                        (),
                        Ok::<Vec<u8>, StorageError>(*payload.bytes),
                    )
                },
                Err(e) => final(self)@ == old(self)@ && call_ensures(
                    loader,
                    (),
                    Err::<Vec<u8>, StorageError>(e),
                ),
            },
    {
        let found = self.lookup(id);
        proof {
            if found is Some {
                assert(self@ =~= self@.insert(id, found->0@));
            }
        }
        self.found_or_load(id, found, loader)
    }

    /// Deduplicates `bytes` by `key` alone, given what a lookup of `key`
    /// found: found bytes are returned in place of `bytes` and the cache
    /// stays as it is; otherwise `bytes` are remembered under `key` and
    /// returned.
    pub fn share_found(
        &mut self,
        key: u64,
        found: Option<Arc<Vec<u8>>>,
        bytes: Arc<Vec<u8>>,
    ) -> (r: Arc<Vec<u8>>)
        ensures
            match found {
                Some(cached) => r == cached && final(self)@ == old(self)@,
                None => r == bytes && final(self)@ == old(self)@.insert(key, bytes@),
            },
    {
        match found {
            Some(cached) => cached,
            None => {
                self.remember(key, &bytes);
                bytes
            },
        }
    }

    /// Deduplicates `bytes` by `key` alone: if the entry of `key` still has
    /// an owner, its bytes are returned in place of `bytes`; otherwise
    /// `bytes` are remembered under `key` and returned. This is what
    /// [`PayloadCache::share_found`] gives for what
    /// [`PayloadCache::lookup`] finds.
    pub fn share(&mut self, key: u64, bytes: Arc<Vec<u8>>) -> (r: Arc<Vec<u8>>)
        ensures
            final(self)@ == old(self)@.insert(key, r@),
            r@ == bytes@ || (old(self)@.contains_key(key) && r@ == old(self)@[key]),
    {
        let found = self.lookup(key);
        proof {
            if found is Some {
                assert(self@ =~= self@.insert(key, found->0@));
            }
        }
        self.share_found(key, found, bytes)
    }

    /// Deduplicates `bytes` by `key` and content, given what a lookup of
    /// `key` found: found bytes are returned if they equal `bytes`;
    /// found bytes that differ are a collision, and `bytes` are returned;
    /// in both cases the cache stays as it is. If nothing was found,
    /// `bytes` are remembered under `key` and returned.
    pub fn share_equal_found(
        &mut self,
        key: u64,
        found: Option<Arc<Vec<u8>>>,
        bytes: Arc<Vec<u8>>,
    ) -> (r: Arc<Vec<u8>>)
        ensures
            match found {
                Some(cached) => r == (if cached@ == bytes@ {
                    cached
                } else {
                    bytes
                }) && final(self)@ == old(self)@,
                None => r == bytes && final(self)@ == old(self)@.insert(key, bytes@),
            },
    {
        match found {
            Some(cached) => {
                if same_bytes(&cached, &bytes) {
                    cached
                } else {
                    bytes
                }
            },
            None => {
                self.remember(key, &bytes);
                bytes
            },
        }
    }

    /// Deduplicates `bytes` by `key` and content: the bytes cached under
    /// `key` are returned only if they still have an owner and equal
    /// `bytes`. If they differ the cache is left alone and `bytes` are
    /// returned; if there is no live entry, `bytes` are remembered. This
    /// is what [`PayloadCache::share_equal_found`] gives for what
    /// [`PayloadCache::lookup`] finds.
    ///
    /// Whatever `key` is, the result holds the same bytes as `bytes`.
    pub fn share_equal(&mut self, key: u64, bytes: Arc<Vec<u8>>) -> (r: Arc<Vec<u8>>)
        ensures
            r@ == bytes@,
            final(self)@ == old(self)@ || final(self)@ == old(self)@.insert(key, bytes@),
            !old(self)@.contains_key(key) ==> final(self)@ == old(self)@.insert(key, bytes@),
    {
        let found = self.lookup(key);
        self.share_equal_found(key, found, bytes)
    }

    /// The keys of the cache, each once, in no particular order.
    pub fn keys(&self) -> (keys: Vec<u64>)
        ensures
            keys@.to_set() == self@.dom(),
            keys@.no_duplicates(),
    {
        broadcast use group_hash_axioms;

        let mut keys: Vec<u64> = Vec::new();
        let ghost all = self.entries.keys().remaining();
        for key in it: self.entries.keys()
            invariant
                it.seq() == all,
                keys@ == Seq::new(it.index() as nat, |i: int| *all[i]),
        {
            keys.push(*key);
            assert(keys@ =~= Seq::new(it.index() as nat + 1, |i: int| *all[i]));
        }
        assert(keys@ =~= all.unref());
        assert(self@.dom() =~= self.entries@.dom());
        assert(keys@.no_duplicates()) by {
            assert forall|i: int, j: int| 0 <= i < keys@.len() && 0 <= j < keys@.len() && i != j
            implies keys@[i] != keys@[j] by {
                assert(all[i] != all[j]);
            }
        }
        keys
    }

    /// Drops the entries of the given keys.
    pub fn evict(&mut self, keys: &Vec<u64>)
        ensures
            final(self)@ == old(self)@.remove_keys(keys@.to_set()),
    {
        let mut i: usize = 0;
        while i < keys.len()
            invariant
                i <= keys.len(),
                self@ == old(self)@.remove_keys(keys@.take(i as int).to_set()),
            decreases keys.len() - i,
        {
            self.forget(keys[i]);
            assert(keys@.take(i as int + 1) =~= keys@.take(i as int).push(keys@[i as int]));
            assert(keys@.take(i as int + 1).to_set() =~= keys@.take(i as int).to_set().insert(
                keys@[i as int],
            )) by {
                keys@.take(i as int).lemma_push_to_set_commute(keys@[i as int]);
            }
            assert(self@ =~= old(self)@.remove_keys(keys@.take(i as int + 1).to_set()));
            i += 1;
        }
        assert(keys@.take(keys.len() as int) =~= keys@);
    }

    /// A census of the cache: each key once, with the number of owners
    /// that its bytes had when they were counted.
    pub fn census(&self) -> (counts: Vec<(u64, usize)>)
        ensures
            census_of(self@, counts@),
    {
        broadcast use group_hash_axioms;

        let all = self.keys();
        let mut counts: Vec<(u64, usize)> = Vec::new();
        let mut i: usize = 0;
        while i < all.len()
            invariant
                i <= all.len(),
                all@.no_duplicates(),
                all@.to_set() == self@.dom(),
                counts@.len() == i,
                census_keys(counts@) == all@.take(i as int),
            decreases all.len() - i,
        {
            let key: u64 = all[i];
            let owners: usize = match self.entries.get(&key) {
                Some(handle) => strong_count(handle),
                None => 0,
            };
            let ghost before = counts@;
            counts.push((key, owners));
            proof {
                assert(counts@ == before.push((key, owners)));
                assert(census_keys(counts@).len() == i + 1);
                assert forall|j: int| 0 <= j < i + 1 implies census_keys(counts@)[j] == all@.take(
                    i as int + 1,
                )[j] by {
                    if j < i {
                        assert(counts@[j] == before[j]);
                        assert(census_keys(before)[j] == all@.take(i as int)[j]);
                    }
                }
                assert(census_keys(counts@) =~= all@.take(i as int + 1));
            }
            i += 1;
        }
        assert(all@.take(all.len() as int) =~= all@);
        counts
    }

    /// The keys of a census whose bytes had no owner, in the order of the
    /// census.
    pub fn unowned(counts: &Vec<(u64, usize)>) -> (keys: Vec<u64>)
        ensures
            keys@ == unowned_keys(counts@),
    {
        let mut keys: Vec<u64> = Vec::new();
        let mut i: usize = 0;
        while i < counts.len()
            invariant
                i <= counts.len(),
                keys@ == unowned_keys(counts@.take(i as int)),
            decreases counts.len() - i,
        {
            assert(counts@.take(i as int + 1).drop_last() =~= counts@.take(i as int));
            assert(counts@.take(i as int + 1).last() == counts@[i as int]);
            if counts[i].1 == 0 {
                keys.push(counts[i].0);
            }
            i += 1;
        }
        assert(counts@.take(counts.len() as int) =~= counts@);
        keys
    }

    /// The keys whose bytes had no owner left when they were counted: the
    /// unowned keys of a census of the cache. They are keys of the cache,
    /// each once.
    pub fn released(&self) -> (keys: Vec<u64>)
        ensures
            exists|counts: Seq<(u64, usize)>| #[trigger]
                census_of(self@, counts) && keys@ == unowned_keys(counts),
            keys@.to_set().subset_of(self@.dom()),
            keys@.no_duplicates(),
    {
        let counts = self.census();
        let keys = Self::unowned(&counts);
        proof {
            lemma_unowned_keys(counts@);
            assert forall|k: u64| keys@.to_set().contains(k) implies self@.dom().contains(k) by {
                let j = choose|j: int|
                    0 <= j < counts@.len() && #[trigger] counts@[j] == (k, 0usize);
                assert(census_keys(counts@)[j] == k);
                assert(census_keys(counts@).to_set().contains(k));
            }
        }
        keys
    }

    /// Drops the entries whose bytes have been released by every owner:
    /// the unowned keys of a census of the cache. Entries that are kept are
    /// kept unchanged.
    ///
    /// Which entries go depends on who still holds their bytes, which the
    /// cache cannot know in advance.
    pub fn prune(&mut self)
        ensures
            pruned(old(self)@, final(self)@),
            final(self)@.submap_of(old(self)@),
    {
        let released = self.released();
        self.evict(&released);
    }
}

} // verus!
