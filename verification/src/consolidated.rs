//! The consolidated overwrite store.
//!
//! A session is one byte string that holds its whole batch with the payload
//! bytes inline, and a write replaces it. There is no separate payload
//! store, so there is nothing to collect; the cache only lets messages read
//! from different sessions share one copy of equal payloads in memory.

use crate::cache::PayloadCache;
use crate::codec::{batch_decoding, batch_encoding, decode_batch, encode_batch};
use crate::disk::{op_views, DiskOp, DiskOpView};
use crate::error::StorageError;
use crate::record::{publish_views, Payload, Publish, PublishView};
use crate::storage::Storage;
use std::collections::hash_map::DefaultHasher;
use std::hash::Hasher;
use vstd::prelude::*;
use vstd::std_specs::hash::*;

verus! {

/// By what a consolidated store recognises a payload that it has in memory.
#[derive(Debug, Clone, Copy, PartialEq, Eq, Structural)]
pub enum DedupKey {
    /// By the payload's id alone.
    PayloadId,
    /// By a hash of the payload's bytes, confirmed by comparing the bytes.
    ContentHash,
}

/// The consolidated overwrite store.
pub struct DB {
    loaded_payloads: PayloadCache,
    location: String,
    dedup: DedupKey,
}

/// The cache key of a payload's bytes under [`DedupKey::ContentHash`].
pub open spec fn content_key(bytes: Seq<u8>) -> u64 {
    DefaultHasher::spec_finish(seq![bytes])
}

/// The cache key of a message's payload.
pub open spec fn cache_key(dedup: DedupKey, publish: PublishView) -> u64 {
    match dedup {
        DedupKey::PayloadId => publish.payload.id,
        DedupKey::ContentHash => content_key(publish.payload.bytes),
    }
}

/// Whether `shared` is `decoded` with nothing changed but, possibly, the
/// payload bytes.
pub open spec fn same_but_bytes(shared: PublishView, decoded: PublishView) -> bool {
    shared == decoded.on_disk().with_bytes(shared.payload.bytes)
}

/// The cache after the first `n` messages of a read have been shared: the
/// bytes handed out for a message are cached under the message's key.
pub open spec fn cache_shared(
    cache: Map<u64, Seq<u8>>,
    dedup: DedupKey,
    decoded: Seq<PublishView>,
    result: Seq<PublishView>,
    n: int,
) -> Map<u64, Seq<u8>>
    decreases n,
{
    if n <= 0 {
        cache
    } else {
        cache_shared(cache, dedup, decoded, result, n - 1).insert(
            cache_key(dedup, decoded[n - 1]),
            result[n - 1].payload.bytes,
        )
    }
}

/// Whether `result` is a way to hand out `decoded` through a cache keyed
/// by payload id: each message is handed out unchanged, or with the bytes
/// that the cache held for its id at that point.
pub open spec fn shared_by_id(
    cache: Map<u64, Seq<u8>>,
    decoded: Seq<PublishView>,
    result: Seq<PublishView>,
) -> bool {
    &&& result.len() == decoded.len()
    &&& forall|i: int|
        0 <= i < decoded.len() ==> {
            let before = cache_shared(cache, DedupKey::PayloadId, decoded, result, i);
            &&& same_but_bytes(#[trigger] result[i], decoded[i])
            &&& result[i].payload.bytes == decoded[i].payload.bytes || (before.contains_key(
                decoded[i].payload.id,
            ) && before[decoded[i].payload.id] == result[i].payload.bytes)
        }
}

/// The cache after the first `n` messages of a read have been shared by
/// content. `kept[i]` says that the cache held an entry under the key of
/// message `i` and was left alone, because the entry's bytes were shared
/// or were other bytes; otherwise the bytes of the message were cached
/// under their key.
pub open spec fn cache_shared_by_content(
    cache: Map<u64, Seq<u8>>,
    decoded: Seq<PublishView>,
    kept: Seq<bool>,
    n: int,
) -> Map<u64, Seq<u8>>
    decreases n,
{
    if n <= 0 {
        cache
    } else {
        let before = cache_shared_by_content(cache, decoded, kept, n - 1);
        if kept[n - 1] {
            before
        } else {
            before.insert(
                content_key(decoded[n - 1].payload.bytes),
                decoded[n - 1].payload.bytes,
            )
        }
    }
}

/// Whether `kept` is a way to hand out `decoded` through a cache keyed by
/// content: the cache is left alone for a message only where it holds an
/// entry under the message's key.
pub open spec fn content_sharing(
    cache: Map<u64, Seq<u8>>,
    decoded: Seq<PublishView>,
    kept: Seq<bool>,
) -> bool {
    &&& kept.len() == decoded.len()
    &&& forall|i: int|
        0 <= i < decoded.len() && #[trigger] kept[i] ==> cache_shared_by_content(
            cache,
            decoded,
            kept,
            i,
        ).contains_key(content_key(decoded[i].payload.bytes))
}

/// Whether a cache keyed by content that started as `cache` can be
/// `cache_out` after `decoded` has been handed out through it.
pub open spec fn shared_by_content(
    cache: Map<u64, Seq<u8>>,
    decoded: Seq<PublishView>,
    cache_out: Map<u64, Seq<u8>>,
) -> bool {
    exists|kept: Seq<bool>|
        {
            &&& #[trigger] content_sharing(cache, decoded, kept)
            &&& cache_out == cache_shared_by_content(
                cache,
                decoded,
                kept,
                decoded.len() as int,
            )
        }
}

/// What has been cached by content during the first `n` steps does not
/// depend on the steps after them.
pub proof fn lemma_cache_shared_by_content_prefix(
    cache: Map<u64, Seq<u8>>,
    decoded: Seq<PublishView>,
    a: Seq<bool>,
    b: Seq<bool>,
    n: int,
)
    requires
        n <= a.len(),
        n <= b.len(),
        forall|i: int| 0 <= i < n ==> a[i] == b[i],
    ensures
        cache_shared_by_content(cache, decoded, a, n) == cache_shared_by_content(
            cache,
            decoded,
            b,
            n,
        ),
    decreases n,
{
    if n > 0 {
        lemma_cache_shared_by_content_prefix(cache, decoded, a, b, n - 1);
    }
}

impl DB {
    /// The payloads that the store has cached, by cache key.
    pub closed spec fn cached(&self) -> Map<u64, Seq<u8>> {
        self.loaded_payloads@
    }

    /// The root location that the store was made for.
    pub closed spec fn root(&self) -> Seq<char> {
        self.location@
    }

    /// By what the store recognises a payload.
    pub closed spec fn dedup_key(&self) -> DedupKey {
        self.dedup
    }

    /// A store for the medium at `location` that recognises payloads by
    /// their id, with nothing cached.
    pub fn new(location: &str) -> (db: Self)
        ensures
            db.root() == location@,
            db.dedup_key() == DedupKey::PayloadId,
            db.cached() == Map::<u64, Seq<u8>>::empty(),
    {
        DB {
            location: location.to_owned(),
            loaded_payloads: PayloadCache::new(),
            dedup: DedupKey::PayloadId,
        }
    }

    /// A store for the medium at `location` that recognises payloads by
    /// their content, with nothing cached.
    pub fn with_content_hash(location: &str) -> (db: Self)
        ensures
            db.root() == location@,
            db.dedup_key() == DedupKey::ContentHash,
            db.cached() == Map::<u64, Seq<u8>>::empty(),
    {
        DB {
            location: location.to_owned(),
            loaded_payloads: PayloadCache::new(),
            dedup: DedupKey::ContentHash,
        }
    }

    /// The root location that the store was made for.
    pub fn location(&self) -> (location: &String)
        ensures
            location@ == self.root(),
    {
        &self.location
    }

    /// By what the store recognises a payload.
    pub fn dedup(&self) -> (dedup: DedupKey)
        ensures
            dedup == self.dedup_key(),
    {
        self.dedup
    }

    /// Number of cache entries, live or not.
    pub fn cached_len(&self) -> (n: usize)
        ensures
            n == self.cached().len(),
    {
        self.loaded_payloads.len()
    }

    /// The hash under which the bytes of a payload are cached: that of the
    /// standard library's default hasher over the bytes.
    pub fn calculate_hash(bytes: &[u8]) -> (hash: u64)
        ensures
            hash == content_key(bytes@),
    {
        let mut hasher = DefaultHasher::new();
        hasher.write(bytes);
        assert(hasher@ =~= seq![bytes@]);
        hasher.finish()
    }

    /// Hands out a decoded batch through the cache, keyed by payload id.
    ///
    /// For each message in order: if the cache entry of its payload id
    /// still has an owner, the message gets those bytes in place of its
    /// own; otherwise its own bytes are cached under the id. Nothing else
    /// of a message changes.
    pub fn share_by_id(&mut self, publishes: Vec<Publish>) -> (result: Vec<Publish>)
        ensures
            final(self).root() == old(self).root(),
            final(self).dedup_key() == old(self).dedup_key(),
            shared_by_id(old(self).cached(), publish_views(publishes@), publish_views(result@)),
            final(self).cached() == cache_shared(
                old(self).cached(),
                DedupKey::PayloadId,
                publish_views(publishes@),
                publish_views(result@),
                publishes@.len() as int,
            ),
    {
        let ghost cache = self.cached();
        let ghost decoded = publish_views(publishes@);
        let mut result: Vec<Publish> = Vec::new();
        let mut i: usize = 0;
        while i < publishes.len()
            invariant
                i <= publishes.len(),
                decoded == publish_views(publishes@),
                cache == old(self).cached(),
                self.root() == old(self).root(),
                self.dedup_key() == old(self).dedup_key(),
                result@.len() == i,
                forall|j: int|
                    0 <= j < i ==> {
                        let before = cache_shared(
                            cache,
                            DedupKey::PayloadId,
                            decoded,
                            publish_views(result@),
                            j,
                        );
                        &&& same_but_bytes(#[trigger] publish_views(result@)[j], decoded[j])
                        &&& publish_views(result@)[j].payload.bytes == decoded[j].payload.bytes
                            || (before.contains_key(decoded[j].payload.id)
                            && before[decoded[j].payload.id] == publish_views(
                            result@,
                        )[j].payload.bytes)
                    },
                self.cached() == cache_shared(
                    cache,
                    DedupKey::PayloadId,
                    decoded,
                    publish_views(result@),
                    i as int,
                ),
            decreases publishes.len() - i,
        {
            let publish = publishes[i].clone();
            assert(publish@ == decoded[i as int]);
            let ghost listed = publish_views(result@);
            let bytes = self.loaded_payloads.share(publish.payload.id, publish.payload.bytes);
            let shared = Publish {
                packet_id: publish.packet_id,
                retain: publish.retain,
                topic_name: publish.topic_name,
                payload: Payload { id: publish.payload.id, bytes },
            };
            result.push(shared);
            proof {
                let now = publish_views(result@);
                assert(now =~= listed.push(shared@));
                assert forall|j: int| 0 <= j <= i implies cache_shared(
                    cache,
                    DedupKey::PayloadId,
                    decoded,
                    now,
                    j,
                ) == cache_shared(cache, DedupKey::PayloadId, decoded, listed, j) by {
                    lemma_cache_shared_prefix(
                        cache,
                        DedupKey::PayloadId,
                        decoded,
                        now,
                        listed,
                        j,
                    );
                }
                assert forall|j: int| 0 <= j < i + 1 implies {
                    let before = cache_shared(cache, DedupKey::PayloadId, decoded, now, j);
                    &&& same_but_bytes(#[trigger] now[j], decoded[j])
                    &&& now[j].payload.bytes == decoded[j].payload.bytes || (before.contains_key(
                        decoded[j].payload.id,
                    ) && before[decoded[j].payload.id] == now[j].payload.bytes)
                } by {
                    if j < i {
                        assert(now[j] == listed[j]);
                    }
                }
            }
            i += 1;
        }
        result
    }

    /// Hands out a decoded batch through the cache, keyed by content.
    ///
    /// For each message in order: if the cache entry of the hash of its
    /// bytes still has an owner and holds the same bytes, the message
    /// shares that copy; if it holds other bytes, the message keeps its own
    /// and the cache is left alone; otherwise the message's bytes are
    /// cached under their hash. The values of the messages do not change,
    /// and afterwards the cache has an entry under the key of every
    /// message.
    pub fn share_by_content(&mut self, publishes: Vec<Publish>) -> (result: Vec<Publish>)
        ensures
            final(self).root() == old(self).root(),
            final(self).dedup_key() == old(self).dedup_key(),
            publish_views(result@) == publish_views(publishes@),
            shared_by_content(old(self).cached(), publish_views(publishes@), final(self).cached()),
            forall|i: int|
                0 <= i < publishes@.len() ==> final(self).cached().contains_key(
                    content_key(#[trigger] publish_views(publishes@)[i].payload.bytes),
                ),
    {
        let ghost cache = self.cached();
        let ghost decoded = publish_views(publishes@);
        let ghost mut kept: Seq<bool> = Seq::empty();
        let mut result: Vec<Publish> = Vec::new();
        let mut i: usize = 0;
        while i < publishes.len()
            invariant
                i <= publishes.len(),
                decoded == publish_views(publishes@),
                cache == old(self).cached(),
                self.root() == old(self).root(),
                self.dedup_key() == old(self).dedup_key(),
                publish_views(result@) == decoded.take(i as int),
                kept.len() == i,
                forall|j: int|
                    0 <= j < i && #[trigger] kept[j] ==> cache_shared_by_content(
                        cache,
                        decoded,
                        kept,
                        j,
                    ).contains_key(content_key(decoded[j].payload.bytes)),
                self.cached() == cache_shared_by_content(cache, decoded, kept, i as int),
                forall|j: int|
                    0 <= j < i ==> self.cached().contains_key(
                        content_key(#[trigger] decoded[j].payload.bytes),
                    ),
            decreases publishes.len() - i,
        {
            let publish = publishes[i].clone();
            assert(publish@ == decoded[i as int]);
            let ghost listed = publish_views(result@);
            let ghost cache_before = self.cached();
            let ghost steps = kept;
            let key = Self::calculate_hash(publish.payload.bytes.as_slice());
            let bytes = self.loaded_payloads.share_equal(key, publish.payload.bytes);
            let shared = Publish {
                packet_id: publish.packet_id,
                retain: publish.retain,
                topic_name: publish.topic_name,
                payload: Payload { id: publish.payload.id, bytes },
            };
            assert(shared@ == decoded[i as int]);
            result.push(shared);
            proof {
                assert(publish_views(result@) =~= listed.push(shared@));
                assert(decoded.take(i as int + 1) =~= decoded.take(i as int).push(
                    decoded[i as int],
                ));
                let stored = cache_before.insert(key, decoded[i as int].payload.bytes);
                let left_alone = self.cached() != stored;
                kept = steps.push(left_alone);
                assert forall|j: int| 0 <= j <= i implies cache_shared_by_content(
                    cache,
                    decoded,
                    kept,
                    j,
                ) == cache_shared_by_content(cache, decoded, steps, j) by {
                    lemma_cache_shared_by_content_prefix(cache, decoded, kept, steps, j);
                }
                assert forall|j: int| 0 <= j < i + 1 && #[trigger] kept[j] implies cache_shared_by_content(
                    cache,
                    decoded,
                    kept,
                    j,
                ).contains_key(content_key(decoded[j].payload.bytes)) by {
                    if j < i {
                        assert(steps[j] == kept[j]);
                    }
                }
                assert forall|j: int| 0 <= j < i + 1 implies self.cached().contains_key(
                    content_key(#[trigger] decoded[j].payload.bytes),
                ) by {
                    if j < i {
                        assert(cache_before.contains_key(content_key(decoded[j].payload.bytes)));
                    }
                }
            }
            i += 1;
        }
        assert(decoded.take(publishes.len() as int) =~= decoded);
        assert(content_sharing(cache, decoded, kept));
        result
    }
}

/// What has been cached during the first `n` steps does not depend on the
/// results after them.
pub proof fn lemma_cache_shared_prefix(
    cache: Map<u64, Seq<u8>>,
    dedup: DedupKey,
    decoded: Seq<PublishView>,
    a: Seq<PublishView>,
    b: Seq<PublishView>,
    n: int,
)
    requires
        n <= a.len(),
        n <= b.len(),
        forall|i: int| 0 <= i < n ==> a[i] == b[i],
    ensures
        cache_shared(cache, dedup, decoded, a, n) == cache_shared(cache, dedup, decoded, b, n),
    decreases n,
{
    if n > 0 {
        lemma_cache_shared_prefix(cache, dedup, decoded, a, b, n - 1);
    }
}

impl Storage for DB {
    type Stored = Option<Vec<u8>>;

    /// Plans the write of a batch to a session: one operation, which
    /// replaces all that the session holds with the encoded batch. The
    /// stored bytes decode to the batch. Every batch can be written.
    fn write(&mut self, session_id: &str, publishes: &[Publish]) -> (r: Result<
        Vec<DiskOp>,
        StorageError,
    >)
        ensures
            final(self).cached() == old(self).cached(),
            final(self).root() == old(self).root(),
            final(self).dedup_key() == old(self).dedup_key(),
            r is Ok,
            op_views(r->Ok_0@) == seq![
                DiskOpView::PutSession {
                    session: session_id@,
                    body: batch_encoding(publish_views(publishes@)),
                },
            ],
            batch_decoding(batch_encoding(publish_views(publishes@))) == Some(
                publish_views(publishes@),
            ),
    {
        let body = match encode_batch(publishes) {
            Ok(body) => body,
            Err(e) => {
                return Err(e);
            },
        };
        let mut ops: Vec<DiskOp> = Vec::new();
        ops.push(DiskOp::PutSession { session: session_id.to_owned(), body });
        assert(op_views(ops@) =~= seq![
            DiskOpView::PutSession {
                session: session_id@,
                body: batch_encoding(publish_views(publishes@)),
            },
        ]);
        Ok(ops)
    }

    /// Reads a session from what the medium holds for it.
    ///
    /// `stored` is `None` for a session for which nothing is stored, and
    /// the result is then empty. Stored bytes that do not decode are
    /// [`StorageError::Codec`]. Otherwise the decoded batch is handed out
    /// through the cache: by payload id as [`DB::share_by_id`] says, or by
    /// content as [`DB::share_by_content`] says, in which case the result
    /// is the decoded batch itself and the cache gains an entry for every
    /// payload that it did not hold. The payloads are stored with the
    /// session, so `fetch` is never called.
    fn read<F: Fn(u64) -> Result<Vec<u8>, StorageError>>(
        &mut self,
        stored: Option<Vec<u8>>,
        fetch: &F,
    ) -> (r: Result<Vec<Publish>, StorageError>)
        ensures
            final(self).root() == old(self).root(),
            final(self).dedup_key() == old(self).dedup_key(),
            match stored {
                None => r is Ok && r->Ok_0@.len() == 0 && final(self).cached() == old(self).cached(),
                Some(bytes) => match batch_decoding(bytes@) {
                    None => r == Err::<Vec<Publish>, StorageError>(StorageError::Codec) && final(self).cached() == old(self).cached(),
                    Some(decoded) => r is Ok && match old(self).dedup_key() {
                        DedupKey::PayloadId => shared_by_id(
                            old(self).cached(),
                            decoded,
                            publish_views(r->Ok_0@),
                        ) && final(self).cached() == cache_shared(
                            old(self).cached(),
                            DedupKey::PayloadId,
                            decoded,
                            publish_views(r->Ok_0@),
                            decoded.len() as int,
                        ),
                        DedupKey::ContentHash => publish_views(r->Ok_0@) == decoded
                            && shared_by_content(
                            old(self).cached(),
                            decoded,
                            final(self).cached(),
                        ),
                    },
                },
            },
    {
        let bytes = match stored {
            None => {
                return Ok(Vec::new());
            },
            Some(bytes) => bytes,
        };
        let publishes = match decode_batch(bytes.as_slice()) {
            Ok(publishes) => publishes,
            Err(e) => {
                return Err(e);
            },
        };
        match self.dedup {
            DedupKey::PayloadId => Ok(self.share_by_id(publishes)),
            DedupKey::ContentHash => Ok(self.share_by_content(publishes)),
        }
    }
}

} // verus!
