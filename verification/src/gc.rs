//! The id-addressed append store and its collector.
//!
//! Payloads are stored once under their id. Each message of a session is
//! filed in the session's index under the id of its payload, so a write adds
//! to what the session holds, and a later message with the same payload id
//! replaces the earlier one.

use crate::cache::{pruned, PayloadCache};
use crate::codec::{record_decoding, record_encoding};
use crate::collector::{deletion, is_sweep, sweep};
use crate::disk::{op_views, DiskOp, DiskOpView};
use crate::error::StorageError;
use crate::layout::{name_views, parse_entry_name, parse_id};
use crate::record::{
    disk_views, publish_views, DiskPublish, DiskPublishView, Payload, Publish, PublishView,
};
use crate::storage::Storage;
use std::collections::HashSet;
use vstd::prelude::*;
use vstd::std_specs::hash::*;

verus! {

/// The id-addressed append store.
pub struct GCStorage {
    location: String,
    loaded_payloads: PayloadCache,
}

/// The two operations that file one message: its record under the session
/// and the key of its payload, then its payload unless that is stored.
pub open spec fn publish_ops(session: Seq<char>, publish: PublishView) -> Seq<DiskOpView> {
    seq![
        DiskOpView::PutMessage {
            session,
            key: publish.payload.id,
            body: record_encoding(publish.on_disk()),
        },
        DiskOpView::PutPayloadIfAbsent { id: publish.payload.id, bytes: publish.payload.bytes },
    ]
}

/// The operations of an append write, message by message.
pub open spec fn append_ops(session: Seq<char>, publishes: Seq<PublishView>) -> Seq<DiskOpView>
    decreases publishes.len(),
{
    if publishes.len() == 0 {
        Seq::empty()
    } else {
        append_ops(session, publishes.drop_last()) + publish_ops(session, publishes.last())
    }
}

/// Whether the stored form of each message decodes to the message's record.
pub open spec fn decode_back(publishes: Seq<PublishView>) -> bool {
    forall|i: int|
        0 <= i < publishes.len() ==> record_decoding(
            record_encoding(#[trigger] publishes[i].on_disk()),
        ) == Some(publishes[i].on_disk())
}

/// The value of what a medium lists for a session: for each entry its
/// content, or `None` where the entry could not be read.
pub open spec fn entry_views(entries: Seq<Option<Vec<u8>>>) -> Seq<Option<Seq<u8>>> {
    entries.map_values(
        |entry: Option<Vec<u8>>|
            match entry {
                Some(content) => Some(content@),
                None => None,
            },
    )
}

/// Why an entry of a listing fails a read: it could not be read
/// ([`StorageError::Io`]) or it does not decode ([`StorageError::Codec`]).
/// `None` for an entry that holds a record.
pub open spec fn entry_failure(entry: Option<Seq<u8>>) -> Option<StorageError> {
    match entry {
        None => Some(StorageError::Io),
        Some(content) => if record_decoding(content) is None {
            Some(StorageError::Codec)
        } else {
            None
        },
    }
}

/// The failure of the first entry of a listing that fails, `None` if every
/// entry holds a record.
pub open spec fn first_failure(entries: Seq<Option<Seq<u8>>>) -> Option<StorageError>
    decreases entries.len(),
{
    if entries.len() == 0 {
        None
    } else {
        match first_failure(entries.drop_last()) {
            Some(e) => Some(e),
            None => entry_failure(entries.last()),
        }
    }
}

/// The records of the entries that hold one, in the order of the listing.
/// Where no entry fails, these are the records of all the entries.
pub open spec fn decodable(entries: Seq<Option<Seq<u8>>>) -> Seq<DiskPublishView>
    decreases entries.len(),
{
    if entries.len() == 0 {
        Seq::empty()
    } else {
        let before = decodable(entries.drop_last());
        match entries.last() {
            Some(content) => match record_decoding(content) {
                Some(record) => before.push(record),
                None => before,
            },
            None => before,
        }
    }
}

/// A failure among the first entries of a listing is the failure of the
/// listing.
pub proof fn lemma_first_failure_prefix(entries: Seq<Option<Seq<u8>>>, k: int)
    requires
        0 <= k <= entries.len(),
        first_failure(entries.take(k)) is Some,
    ensures
        first_failure(entries) == first_failure(entries.take(k)),
    decreases entries.len(),
{
    if k == entries.len() {
        assert(entries.take(k) =~= entries);
    } else {
        assert(entries.drop_last().take(k) =~= entries.take(k));
        lemma_first_failure_prefix(entries.drop_last(), k);
    }
}

/// Whether `fetch` can deliver `bytes` for the payload `id`.
pub open spec fn fetched<F: Fn(u64) -> Result<Vec<u8>, StorageError>>(
    fetch: F,
    id: u64,
    bytes: Seq<u8>,
) -> bool {
    exists|loaded: Vec<u8>|
        loaded@ == bytes && #[trigger] call_ensures(
            fetch,
            (id,),
            Ok::<Vec<u8>, StorageError>(loaded),
        )
}

/// Whether `bytes` are a way in which the payload `id` can be resolved
/// against `cache` and `fetch`: they are the bytes of the cache entry of
/// `id`, or bytes that `fetch` can deliver for `id`.
pub open spec fn resolves<F: Fn(u64) -> Result<Vec<u8>, StorageError>>(
    cache: Map<u64, Seq<u8>>,
    fetch: F,
    id: u64,
    bytes: Seq<u8>,
) -> bool {
    (cache.contains_key(id) && cache[id] == bytes) || fetched(fetch, id, bytes)
}

/// The cache after the first `n` messages of `done` have been resolved:
/// every resolved payload is cached under its id.
pub open spec fn cache_after(cache: Map<u64, Seq<u8>>, done: Seq<PublishView>, n: int) -> Map<
    u64,
    Seq<u8>,
>
    decreases n,
{
    if n <= 0 {
        cache
    } else {
        cache_after(cache, done, n - 1).insert(done[n - 1].payload.id, done[n - 1].payload.bytes)
    }
}

/// Whether `done` is a way in which the first records of `records` can
/// be resolved one after the other, starting from `cache`: each message
/// is its record with bytes that resolve its payload at that point.
pub open spec fn read_steps<F: Fn(u64) -> Result<Vec<u8>, StorageError>>(
    cache: Map<u64, Seq<u8>>,
    records: Seq<DiskPublishView>,
    fetch: F,
    done: Seq<PublishView>,
) -> bool {
    &&& done.len() <= records.len()
    &&& forall|i: int|
        0 <= i < done.len() ==> (#[trigger] done[i]) == records[i].with_bytes(
            done[i].payload.bytes,
        ) && resolves(
            cache_after(cache, done, i),
            fetch,
            records[i].payload_id,
            done[i].payload.bytes,
        )
}

/// Whether resolving `records` in order, starting with `cache`, can end
/// with `outcome` and `cache_out`.
///
/// It ends well with the messages of all the records. It fails at the
/// first record for which the cache has no live entry and `fetch` fails,
/// with the error of `fetch`; what was resolved before stays cached.
pub open spec fn read_of<F: Fn(u64) -> Result<Vec<u8>, StorageError>>(
    cache: Map<u64, Seq<u8>>,
    records: Seq<DiskPublishView>,
    fetch: F,
    outcome: Result<Seq<PublishView>, StorageError>,
    cache_out: Map<u64, Seq<u8>>,
) -> bool {
    match outcome {
        Ok(result) => {
            &&& read_steps(cache, records, fetch, result)
            &&& result.len() == records.len()
            &&& cache_out == cache_after(cache, result, result.len() as int)
        },
        Err(e) => exists|done: Seq<PublishView>|
            {
                &&& #[trigger] read_steps(cache, records, fetch, done)
                &&& done.len() < records.len()
                &&& call_ensures(
                    fetch,
                    (records[done.len() as int].payload_id,),
                    Err::<Vec<u8>, StorageError>(e),
                )
                &&& cache_out == cache_after(cache, done, done.len() as int)
            },
    }
}

/// Whether a read of a session that started with `cache` can end with
/// `outcome` and `cache_out`, given what the medium lists for the session.
///
/// A session for which nothing is stored reads as empty. A listing with
/// an entry that fails is the failure of the first such entry, and
/// nothing is fetched. Otherwise the records of the listing are resolved
/// as [`read_of`] says.
pub open spec fn session_read<F: Fn(u64) -> Result<Vec<u8>, StorageError>>(
    cache: Map<u64, Seq<u8>>,
    stored: Option<Seq<Option<Seq<u8>>>>,
    fetch: F,
    outcome: Result<Seq<PublishView>, StorageError>,
    cache_out: Map<u64, Seq<u8>>,
) -> bool {
    match stored {
        None => outcome == Ok::<Seq<PublishView>, StorageError>(Seq::empty()) && cache_out
            == cache,
        Some(entries) => match first_failure(entries) {
            Some(e) => outcome == Err::<Seq<PublishView>, StorageError>(e) && cache_out == cache,
            None => read_of(cache, decodable(entries), fetch, outcome, cache_out),
        },
    }
}

/// The value of the outcome of a read.
pub open spec fn outcome_views(r: Result<Vec<Publish>, StorageError>) -> Result<
    Seq<PublishView>,
    StorageError,
> {
    match r {
        Ok(publishes) => Ok(publish_views(publishes@)),
        Err(e) => Err(e),
    }
}

/// The value of what a medium holds for a session.
pub open spec fn stored_views(stored: Option<Vec<Option<Vec<u8>>>>) -> Option<
    Seq<Option<Seq<u8>>>,
> {
    match stored {
        Some(entries) => Some(entry_views(entries@)),
        None => None,
    }
}

/// What has been cached during the first `n` steps does not depend on
/// the steps after them.
pub proof fn lemma_cache_after_prefix(
    cache: Map<u64, Seq<u8>>,
    a: Seq<PublishView>,
    b: Seq<PublishView>,
    n: int,
)
    requires
        n <= a.len(),
        n <= b.len(),
        forall|i: int| 0 <= i < n ==> a[i] == b[i],
    ensures
        cache_after(cache, a, n) == cache_after(cache, b, n),
    decreases n,
{
    if n > 0 {
        lemma_cache_after_prefix(cache, a, b, n - 1);
    }
}

/// Whether every name of a listing denotes an id.
pub open spec fn all_named(names: Seq<Seq<char>>) -> bool {
    forall|i: int| 0 <= i < names.len() ==> parse_id(#[trigger] names[i]) is Some
}

/// The ids that the names of a listing denote.
pub open spec fn named_ids(names: Seq<Seq<char>>) -> Set<u64> {
    Set::new(
        |id: u64| exists|i: int| 0 <= i < names.len() && parse_id(#[trigger] names[i]) == Some(id),
    )
}

/// The listings of the sessions' message indexes as character strings.
pub open spec fn index_views(sessions: Seq<Vec<String>>) -> Seq<Seq<Seq<char>>> {
    sessions.map_values(|names: Vec<String>| name_views(names@))
}

/// Whether every name in every session's listing denotes an id.
pub open spec fn all_indexes_named(sessions: Seq<Seq<Seq<char>>>) -> bool {
    forall|s: int| 0 <= s < sessions.len() ==> all_named(#[trigger] sessions[s])
}

/// The ids that some session's listing names.
pub open spec fn referenced_ids(sessions: Seq<Seq<Seq<char>>>) -> Set<u64> {
    Set::new(
        |id: u64|
            exists|s: int| 0 <= s < sessions.len() && named_ids(#[trigger] sessions[s]).contains(id),
    )
}

impl GCStorage {
    /// The payloads that the store has cached, by id.
    pub closed spec fn cached(&self) -> Map<u64, Seq<u8>> {
        self.loaded_payloads@
    }

    /// The root location that the store was made for.
    pub closed spec fn root(&self) -> Seq<char> {
        self.location@
    }

    /// A store for the medium at `location`, with nothing cached.
    pub fn new(location: &str) -> (storage: Self)
        ensures
            storage.root() == location@,
            storage.cached() == Map::<u64, Seq<u8>>::empty(),
    {
        GCStorage { location: location.to_owned(), loaded_payloads: PayloadCache::new() }
    }

    /// The root location that the store was made for.
    pub fn location(&self) -> (location: &String)
        ensures
            location@ == self.root(),
    {
        &self.location
    }

    /// Number of cache entries, live or not.
    pub fn cached_len(&self) -> (n: usize)
        ensures
            n == self.cached().len(),
    {
        self.loaded_payloads.len()
    }

    /// The operation that files `body` in the session's index, under the id
    /// of its payload. The stored form decodes to `body` again.
    pub fn write_body(session_id: &str, body: &DiskPublish) -> (r: Result<DiskOp, StorageError>)
        ensures
            r is Ok,
            r->Ok_0@ == (DiskOpView::PutMessage {
                session: session_id@,
                key: body.payload_id,
                body: record_encoding(body@),
            }),
            record_decoding(record_encoding(body@)) == Some(body@),
    {
        match body.encode() {
            Ok(bytes) => Ok(
                DiskOp::PutMessage {
                    session: session_id.to_owned(),
                    key: body.payload_id,
                    body: bytes,
                },
            ),
            Err(e) => Err(e),
        }
    }

    /// The operation that stores a payload unless its id is already stored.
    /// Bytes presented later under a stored id are not compared with the
    /// stored ones: the first write of an id wins.
    pub fn write_payload_if_empty(payload: &Payload) -> (op: DiskOp)
        ensures
            op@ == (DiskOpView::PutPayloadIfAbsent { id: payload.id, bytes: payload.bytes@ }),
    {
        DiskOp::PutPayloadIfAbsent { id: payload.id, bytes: payload.bytes.clone() }
    }

    /// The payload `payload_id`: from the cache if its bytes still have an
    /// owner, else from `fetch`, whose answer is then cached.
    ///
    /// A payload that `fetch` cannot deliver is an error, which is the one
    /// that `fetch` gave; the cache is then unchanged.
    pub fn get_payload<F: Fn(u64) -> Result<Vec<u8>, StorageError>>(
        &mut self,
        payload_id: u64,
        fetch: &F,
    ) -> (r: Result<Payload, StorageError>)
        requires
            call_requires(*fetch, (payload_id,)),
        ensures
            final(self).root() == old(self).root(),
            match r {
                Ok(payload) => {
                    &&& payload.id == payload_id
                    &&& resolves(old(self).cached(), *fetch, payload_id, payload.bytes@)
                    &&& final(self).cached() == old(self).cached().insert(
                        payload_id,
                        payload.bytes@,
                    )
                },
                Err(e) => {
                    &&& call_ensures(*fetch, (payload_id,), Err::<Vec<u8>, StorageError>(e))
                    &&& final(self).cached() == old(self).cached()
                },
            },
    {
        let loader = || -> (loaded: Result<Vec<u8>, StorageError>)
            requires
                call_requires(*fetch, (payload_id,)),
            ensures
                call_ensures(*fetch, (payload_id,), loaded),
            { fetch(payload_id) };
        let r = self.loaded_payloads.get_or_load(payload_id, loader);
        proof {
            if r is Ok {
                let payload = r->Ok_0;
                if !(old(self).cached().contains_key(payload_id) && old(self).cached()[payload_id]
                    == payload.bytes@) {
                    assert(call_ensures(
                        *fetch,
                        (payload_id,),
                        Ok::<Vec<u8>, StorageError>(*payload.bytes),
                    ));
                }
            }
        }
        r
    }

    /// The message stored as `content`: its record, with the payload that
    /// [`GCStorage::get_payload`] resolves for it.
    ///
    /// Content that does not decode is [`StorageError::Codec`].
    pub fn parse_body<F: Fn(u64) -> Result<Vec<u8>, StorageError>>(
        &mut self,
        content: &[u8],
        fetch: &F,
    ) -> (r: Result<Publish, StorageError>)
        requires
            forall|id: u64| call_requires(*fetch, (id,)),
        ensures
            final(self).root() == old(self).root(),
            match r {
                Ok(publish) => {
                    &&& record_decoding(content@) == Some(publish@.on_disk())
                    &&& resolves(
                        old(self).cached(),
                        *fetch,
                        publish.payload.id,
                        publish.payload.bytes@,
                    )
                    &&& final(self).cached() == old(self).cached().insert(
                        publish.payload.id,
                        publish.payload.bytes@,
                    )
                },
                Err(e) => {
                    &&& final(self).cached() == old(self).cached()
                    &&& match record_decoding(content@) {
                        Some(record) => call_ensures(
                            *fetch,
                            (record.payload_id,),
                            Err::<Vec<u8>, StorageError>(e),
                        ),
                        None => e == StorageError::Codec,
                    }
                },
            },
    {
        let body = match DiskPublish::decode(content) {
            Ok(body) => body,
            Err(e) => {
                return Err(e);
            },
        };
        match self.get_payload(body.payload_id, fetch) {
            Ok(payload) => Ok(body.into_publish(payload.bytes)),
            Err(e) => Err(e),
        }
    }

    /// The records of a listing, in order.
    ///
    /// A listing with an entry that could not be read is
    /// [`StorageError::Io`], one with an entry that does not decode is
    /// [`StorageError::Codec`]; the first entry that fails decides.
    pub fn decode_entries(entries: &Vec<Option<Vec<u8>>>) -> (r: Result<
        Vec<DiskPublish>,
        StorageError,
    >)
        ensures
            match first_failure(entry_views(entries@)) {
                Some(e) => r == Err::<Vec<DiskPublish>, StorageError>(e),
                None => r is Ok && disk_views(r->Ok_0@) == decodable(entry_views(entries@)),
            },
    {
        let ghost views = entry_views(entries@);
        let mut records: Vec<DiskPublish> = Vec::new();
        let mut i: usize = 0;
        while i < entries.len()
            invariant
                i <= entries.len(),
                views == entry_views(entries@),
                first_failure(views.take(i as int)) is None,
                disk_views(records@) == decodable(views.take(i as int)),
            decreases entries.len() - i,
        {
            proof {
                assert(views.take(i as int + 1).drop_last() =~= views.take(i as int));
                assert(views.take(i as int + 1).last() == views[i as int]);
            }
            let ghost before = disk_views(records@);
            match &entries[i] {
                Some(content) => {
                    match DiskPublish::decode(content.as_slice()) {
                        Ok(record) => {
                            records.push(record);
                            assert(disk_views(records@) =~= before.push(record@));
                        },
                        Err(e) => {
                            proof {
                                lemma_first_failure_prefix(views, i as int + 1);
                            }
                            return Err(e);
                        },
                    }
                },
                None => {
                    proof {
                        lemma_first_failure_prefix(views, i as int + 1);
                    }
                    return Err(StorageError::Io);
                },
            }
            i += 1;
        }
        assert(views.take(entries.len() as int) =~= views);
        Ok(records)
    }

    /// The messages of `records`, in order, each with its payload resolved
    /// through the cache and `fetch` as by [`GCStorage::get_payload`].
    ///
    /// A payload that cannot be resolved fails the read with the error of
    /// `fetch`: no message is handed out without its bytes. What was
    /// resolved before the failure stays cached.
    pub fn resolve<F: Fn(u64) -> Result<Vec<u8>, StorageError>>(
        &mut self,
        records: &Vec<DiskPublish>,
        fetch: &F,
    ) -> (r: Result<Vec<Publish>, StorageError>)
        requires
            forall|id: u64| call_requires(*fetch, (id,)),
        ensures
            final(self).root() == old(self).root(),
            read_of(
                old(self).cached(),
                disk_views(records@),
                *fetch,
                outcome_views(r),
                final(self).cached(),
            ),
    {
        let mut result: Vec<Publish> = Vec::new();
        let ghost cache = self.cached();
        let ghost views = disk_views(records@);
        let mut i: usize = 0;
        while i < records.len()
            invariant
                i <= records.len(),
                views == disk_views(records@),
                cache == old(self).cached(),
                self.root() == old(self).root(),
                forall|id: u64| call_requires(*fetch, (id,)),
                result@.len() == i,
                read_steps(cache, views, *fetch, publish_views(result@)),
                self.cached() == cache_after(cache, publish_views(result@), i as int),
            decreases records.len() - i,
        {
            let record = records[i].clone();
            assert(record@ == views[i as int]);
            let ghost done = publish_views(result@);
            match self.get_payload(record.payload_id, fetch) {
                Ok(payload) => {
                    let publish = record.into_publish(payload.bytes);
                    result.push(publish);
                    proof {
                        let now = publish_views(result@);
                        assert(now =~= done.push(publish@));
                        assert forall|j: int| 0 <= j <= i implies cache_after(cache, now, j)
                            == cache_after(cache, done, j) by {
                            lemma_cache_after_prefix(cache, now, done, j);
                        }
                        assert forall|j: int| 0 <= j < now.len() implies (#[trigger] now[j])
                            == views[j].with_bytes(now[j].payload.bytes) && resolves(
                            cache_after(cache, now, j),
                            *fetch,
                            views[j].payload_id,
                            now[j].payload.bytes,
                        ) by {
                            if j < i {
                                assert(now[j] == done[j]);
                            }
                        }
                    }
                },
                Err(e) => {
                    assert(read_steps(cache, views, *fetch, done));
                    return Err(e);
                },
            }
            i += 1;
        }
        Ok(result)
    }

    /// The operation that removes the payload `payload_id`. The cache is
    /// left as it is: what is cached for the id is forgotten by
    /// [`GCStorage::deleted`], once the medium has removed the payload.
    pub fn delete_payload(&mut self, payload_id: u64) -> (op: DiskOp)
        ensures
            final(self).root() == old(self).root(),
            op@ == deletion(payload_id),
            final(self).cached() == old(self).cached(),
    {
        DiskOp::DeletePayload { id: payload_id }
    }

    /// Takes note that the medium has removed the payload `payload_id`:
    /// the store forgets what it has cached for the id.
    pub fn deleted(&mut self, payload_id: u64)
        ensures
            final(self).root() == old(self).root(),
            final(self).cached() == old(self).cached().remove(payload_id),
    {
        self.loaded_payloads.forget(payload_id);
    }

    /// The ids that the entry names of a listing denote, in order.
    ///
    /// A listing with a name that denotes no id is
    /// [`StorageError::Codec`].
    pub fn get_payload_ids(names: &Vec<String>) -> (r: Result<Vec<u64>, StorageError>)
        ensures
            match r {
                Ok(ids) => {
                    &&& ids@.len() == names@.len()
                    &&& forall|i: int|
                        0 <= i < ids@.len() ==> parse_id(names@[i]@) == Some(#[trigger] ids@[i])
                },
                Err(e) => e == StorageError::Codec && !all_named(name_views(names@)),
            },
    {
        let mut ids: Vec<u64> = Vec::new();
        let mut i: usize = 0;
        while i < names.len()
            invariant
                i <= names.len(),
                ids@.len() == i,
                forall|j: int| 0 <= j < i ==> parse_id(names@[j]@) == Some(#[trigger] ids@[j]),
            decreases names.len() - i,
        {
            match parse_entry_name(names[i].as_str()) {
                Some(id) => {
                    ids.push(id);
                },
                None => {
                    assert(name_views(names@)[i as int] == names@[i as int]@);
                    return Err(StorageError::Codec);
                },
            }
            i += 1;
        }
        Ok(ids)
    }

    /// Plans a collection: mark what the sessions reference, sweep what
    /// is stored beyond that, prune the cache.
    ///
    /// `stored` lists the names of the stored payloads and `sessions`, for
    /// each session, the names of the entries of its message index. The
    /// result holds one deletion for each stored id that no session names,
    /// and nothing else; a payload that some session names is never
    /// deleted. The cache is pruned of the entries whose bytes have no
    /// owner left; what stays cached is unchanged. What is cached for a
    /// swept id is forgotten by [`GCStorage::deleted`], once the medium
    /// has removed the payload.
    ///
    /// If a name denotes no id, nothing is deleted and the error is
    /// [`StorageError::Codec`]. A collection must not be planned while a
    /// write's operations are still being carried out.
    pub fn clean(&mut self, stored: &Vec<String>, sessions: &Vec<Vec<String>>) -> (r: Result<
        Vec<DiskOp>,
        StorageError,
    >)
        ensures
            final(self).root() == old(self).root(),
            r is Ok <==> all_named(name_views(stored@)) && all_indexes_named(
                index_views(sessions@),
            ),
            match r {
                Ok(ops) => {
                    &&& is_sweep(
                        op_views(ops@),
                        named_ids(name_views(stored@)),
                        referenced_ids(index_views(sessions@)),
                    )
                    &&& pruned(old(self).cached(), final(self).cached())
                    &&& final(self).cached().submap_of(old(self).cached())
                },
                Err(e) => e == StorageError::Codec && final(self).cached() == old(self).cached(),
            },
    {
        broadcast use group_hash_axioms;

        let stored_ids = match Self::get_payload_ids(stored) {
            Ok(ids) => ids,
            Err(e) => {
                return Err(e);
            },
        };
        let ghost stored_names = name_views(stored@);
        assert(all_named(stored_names) && stored_ids@.to_set() =~= named_ids(stored_names)) by {
            assert forall|i: int| 0 <= i < stored_names.len() implies parse_id(
                #[trigger] stored_names[i],
            ) is Some by {
                assert(parse_id(stored@[i]@) == Some(stored_ids@[i]));
            }
            assert forall|id: u64| stored_ids@.to_set().contains(id) implies named_ids(
                stored_names,
            ).contains(id) by {
                let i = choose|i: int| 0 <= i < stored_ids@.len() && stored_ids@[i] == id;
                assert(parse_id(stored_names[i]) == Some(id));
            }
            assert forall|id: u64| named_ids(stored_names).contains(id) implies stored_ids@.to_set().contains(
                id,
            ) by {
                let i = choose|i: int|
                    0 <= i < stored_names.len() && parse_id(#[trigger] stored_names[i]) == Some(
                        id,
                    );
                assert(stored_ids@[i] == id);
            }
        }
        let ghost indexes = index_views(sessions@);
        let mut referenced: HashSet<u64> = HashSet::new();
        let mut s: usize = 0;
        while s < sessions.len()
            invariant
                s <= sessions.len(),
                indexes == index_views(sessions@),
                all_indexes_named(indexes.take(s as int)),
                referenced@ == referenced_ids(indexes.take(s as int)),
                self.cached() == old(self).cached(),
                self.root() == old(self).root(),
            decreases sessions.len() - s,
        {
            let ids = match Self::get_payload_ids(&sessions[s]) {
                Ok(ids) => ids,
                Err(e) => {
                    assert(!all_named(indexes[s as int]));
                    return Err(e);
                },
            };
            let ghost names = indexes[s as int];
            let ghost marked = referenced@;
            let mut k: usize = 0;
            while k < ids.len()
                invariant
                    k <= ids.len(),
                    referenced@ == marked.union(ids@.take(k as int).to_set()),
                decreases ids.len() - k,
            {
                referenced.insert(ids[k]);
                proof {
                    ids@.take(k as int).lemma_push_to_set_commute(ids@[k as int]);
                    assert(ids@.take(k as int + 1) =~= ids@.take(k as int).push(ids@[k as int]));
                    assert(referenced@ =~= marked.union(ids@.take(k as int + 1).to_set()));
                }
                k += 1;
            }
            proof {
                assert(ids@.take(ids.len() as int) =~= ids@);
                assert(names == name_views(sessions@[s as int]@));
                assert(all_named(names)) by {
                    assert forall|i: int| 0 <= i < names.len() implies parse_id(
                        #[trigger] names[i],
                    ) is Some by {
                        assert(parse_id(sessions@[s as int]@[i]@) == Some(ids@[i]));
                    }
                }
                assert(ids@.to_set() =~= named_ids(names)) by {
                    assert forall|id: u64| ids@.to_set().contains(id) implies named_ids(
                        names,
                    ).contains(id) by {
                        let i = choose|i: int| 0 <= i < ids@.len() && ids@[i] == id;
                        assert(parse_id(names[i]) == Some(id));
                    }
                    assert forall|id: u64| named_ids(names).contains(id) implies ids@.to_set().contains(
                        id,
                    ) by {
                        let i = choose|i: int|
                            0 <= i < names.len() && parse_id(#[trigger] names[i]) == Some(id);
                        assert(ids@[i] == id);
                    }
                }
                let next = indexes.take(s as int + 1);
                assert(all_indexes_named(next)) by {
                    assert forall|t: int| 0 <= t < next.len() implies all_named(
                        #[trigger] next[t],
                    ) by {
                        if t < s {
                            assert(indexes.take(s as int)[t] == next[t]);
                        }
                    }
                }
                assert(referenced@ =~= referenced_ids(next)) by {
                    assert forall|id: u64| referenced@.contains(id) implies referenced_ids(
                        next,
                    ).contains(id) by {
                        if marked.contains(id) {
                            let t = choose|t: int|
                                0 <= t < s && named_ids(
                                    #[trigger] indexes.take(s as int)[t],
                                ).contains(id);
                            assert(named_ids(next[t]).contains(id));
                        } else {
                            assert(named_ids(next[s as int]).contains(id));
                        }
                    }
                    assert forall|id: u64| referenced_ids(next).contains(id) implies referenced@.contains(
                        id,
                    ) by {
                        let t = choose|t: int|
                            0 <= t < next.len() && named_ids(#[trigger] next[t]).contains(id);
                        if t < s {
                            assert(named_ids(indexes.take(s as int)[t]).contains(id));
                        }
                    }
                }
            }
            s += 1;
        }
        assert(indexes.take(sessions.len() as int) =~= indexes);
        let ops = sweep(&stored_ids, &referenced);
        self.loaded_payloads.prune();
        Ok(ops)
    }
}

impl Storage for GCStorage {
    type Stored = Option<Vec<Option<Vec<u8>>>>;

    /// Plans the write of a batch of messages to a session.
    ///
    /// The operations are, for each message in order, those of
    /// [`publish_ops`]; the stored form of every message decodes to its
    /// record. What the session already holds is not touched, except that
    /// a message replaces the one filed under the same payload id. Every
    /// batch can be written.
    fn write(&mut self, session_id: &str, publishes: &[Publish]) -> (r: Result<
        Vec<DiskOp>,
        StorageError,
    >)
        ensures
            final(self).cached() == old(self).cached(),
            final(self).root() == old(self).root(),
            r is Ok,
            op_views(r->Ok_0@) == append_ops(session_id@, publish_views(publishes@)),
            decode_back(publish_views(publishes@)),
    {
        let mut ops: Vec<DiskOp> = Vec::new();
        let mut i: usize = 0;
        while i < publishes.len()
            invariant
                i <= publishes.len(),
                op_views(ops@) == append_ops(
                    session_id@,
                    publish_views(publishes@).take(i as int),
                ),
                decode_back(publish_views(publishes@).take(i as int)),
            decreases publishes.len() - i,
        {
            let publish = &publishes[i];
            let body = publish.to_disk();
            let ghost before = op_views(ops@);
            let ghost views = publish_views(publishes@);
            match GCStorage::write_body(session_id, &body) {
                Ok(op) => {
                    ops.push(op);
                },
                Err(e) => {
                    return Err(e);
                },
            }
            ops.push(GCStorage::write_payload_if_empty(&publish.payload));
            proof {
                assert(views.take(i as int + 1).drop_last() =~= views.take(i as int));
                assert(views.take(i as int + 1).last() == publish@);
                assert(op_views(ops@) =~= before + publish_ops(session_id@, publish@));
                assert forall|j: int| 0 <= j < i + 1 implies record_decoding(
                    record_encoding(#[trigger] views.take(i as int + 1)[j].on_disk()),
                ) == Some(views.take(i as int + 1)[j].on_disk()) by {
                    if j < i {
                        assert(views.take(i as int)[j] == views.take(i as int + 1)[j]);
                    }
                }
            }
            i += 1;
        }
        assert(publish_views(publishes@).take(publishes.len() as int) =~= publish_views(
            publishes@,
        ));
        Ok(ops)
    }

    /// Reads a session from what the medium lists for it.
    ///
    /// `stored` is `None` for a session for which nothing was ever stored,
    /// and the result is then empty. Otherwise it lists the session's
    /// entries, `None` standing for an entry that could not be read. The
    /// result holds, in the order of the listing, the message of every
    /// entry, with its payload from the cache while its bytes are held,
    /// else from `fetch`. Every resolved payload is cached.
    ///
    /// The read fails if an entry could not be read
    /// ([`StorageError::Io`]) or does not decode ([`StorageError::Codec`]),
    /// and nothing is fetched then. It fails with the error of `fetch` if
    /// a payload cannot be resolved. No message is handed out without its
    /// bytes.
    fn read<F: Fn(u64) -> Result<Vec<u8>, StorageError>>(
        &mut self,
        stored: Option<Vec<Option<Vec<u8>>>>,
        fetch: &F,
    ) -> (r: Result<Vec<Publish>, StorageError>)
        ensures
            final(self).root() == old(self).root(),
            session_read(
                old(self).cached(),
                stored_views(stored),
                *fetch,
                outcome_views(r),
                final(self).cached(),
            ),
    {
        match stored {
            None => {
                let empty: Vec<Publish> = Vec::new();
                assert(publish_views(empty@) =~= Seq::<PublishView>::empty());
                Ok(empty)
            },
            Some(entries) => {
                let records = match GCStorage::decode_entries(&entries) {
                    Ok(records) => records,
                    Err(e) => {
                        return Err(e);
                    },
                };
                self.resolve(&records, fetch)
            },
        }
    }
}

} // verus!
