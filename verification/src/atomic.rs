//! The atomic-batch store.
//!
//! It is made for a key-value engine with two keyspaces, one for payloads
//! by id and one for the sessions' indexes. A write replaces the session's
//! index and stores the batch's payloads, and its operations are meant to
//! be committed together: either all of them land or none does.

use crate::codec::{decode_index, encode_index, index_decoding, index_encoding};
use crate::collector::{is_sweep, sweep};
use crate::disk::{names_payload, op_views, DiskOp, DiskOpView};
use crate::error::StorageError;
use crate::gc::outcome_views;
use crate::record::{
    disk_views, publish_views, DiskPublish, DiskPublishView, Publish, PublishView,
};
use crate::storage::Storage;
use std::collections::HashSet;
use std::sync::Arc;
use vstd::bytes::{
    lemma_auto_spec_u64_to_from_le_bytes, spec_u64_from_le_bytes, spec_u64_to_le_bytes,
    u64_from_le_bytes, u64_to_le_bytes,
};
use vstd::prelude::*;
use vstd::std_specs::hash::*;

verus! {

/// The atomic-batch store.
pub struct GCStorage {
    location: String,
}

/// The records persisted for a batch of messages, in order.
pub open spec fn records_of(publishes: Seq<PublishView>) -> Seq<DiskPublishView> {
    Seq::new(publishes.len(), |i: int| publishes[i].on_disk())
}

/// The operations that store the payloads of a batch, in order. A
/// payload is stored only if no payload is stored under its id: the first
/// bytes written under an id stay.
pub open spec fn payload_puts(publishes: Seq<PublishView>) -> Seq<DiskOpView> {
    Seq::new(
        publishes.len(),
        |i: int|
            DiskOpView::PutPayloadIfAbsent {
                id: publishes[i].payload.id,
                bytes: publishes[i].payload.bytes,
            },
    )
}

/// The operations of a write: the payloads of the batch, then the
/// session's new index.
pub open spec fn batch_ops(session: Seq<char>, publishes: Seq<PublishView>) -> Seq<DiskOpView> {
    payload_puts(publishes).push(
        DiskOpView::PutSession { session, body: index_encoding(records_of(publishes)) },
    )
}

/// Whether `result` is `records`, in order, each with bytes that `fetch`
/// delivers for its payload.
pub open spec fn fetched_all<F: Fn(u64) -> Result<Vec<u8>, StorageError>>(
    records: Seq<DiskPublishView>,
    fetch: F,
    result: Seq<PublishView>,
) -> bool {
    &&& result.len() == records.len()
    &&& forall|i: int|
        0 <= i < records.len() ==> (#[trigger] result[i]) == records[i].with_bytes(
            result[i].payload.bytes,
        ) && exists|loaded: Vec<u8>|
            loaded@ == result[i].payload.bytes && #[trigger] call_ensures(
                fetch,
                (records[i].payload_id,),
                Ok::<Vec<u8>, StorageError>(loaded),
            )
}

/// Whether `fetch` can fail with `e` for the payload of one of `records`.
pub open spec fn fetch_fails<F: Fn(u64) -> Result<Vec<u8>, StorageError>>(
    records: Seq<DiskPublishView>,
    fetch: F,
    e: StorageError,
) -> bool {
    exists|i: int|
        0 <= i < records.len() && #[trigger] call_ensures(
            fetch,
            (records[i].payload_id,),
            Err::<Vec<u8>, StorageError>(e),
        )
}

/// Whether a read of a session can end with `outcome`, given the
/// session's stored index and `fetch`.
///
/// A session for which nothing is stored reads as empty. An index that
/// does not decode is [`StorageError::Codec`]. Otherwise the read ends
/// well with the messages of the index, each with bytes that `fetch`
/// delivers, or fails with an error that `fetch` gives for one of them.
pub open spec fn index_read<F: Fn(u64) -> Result<Vec<u8>, StorageError>>(
    stored: Option<Seq<u8>>,
    fetch: F,
    outcome: Result<Seq<PublishView>, StorageError>,
) -> bool {
    match stored {
        None => outcome == Ok::<Seq<PublishView>, StorageError>(Seq::empty()),
        Some(index) => match index_decoding(index) {
            None => outcome == Err::<Seq<PublishView>, StorageError>(StorageError::Codec),
            Some(records) => match outcome {
                Ok(result) => fetched_all(records, fetch, result),
                Err(e) => fetch_fails(records, fetch, e),
            },
        },
    }
}

/// The stored indexes of the sessions as byte strings.
pub open spec fn index_views(indexes: Seq<Vec<u8>>) -> Seq<Seq<u8>> {
    indexes.map_values(|index: Vec<u8>| index@)
}

/// Whether every stored index decodes.
pub open spec fn all_decode(indexes: Seq<Seq<u8>>) -> bool {
    forall|s: int| 0 <= s < indexes.len() ==> index_decoding(#[trigger] indexes[s]) is Some
}

/// The payload ids that some stored index names.
pub open spec fn indexed_ids(indexes: Seq<Seq<u8>>) -> Set<u64> {
    Set::new(
        |id: u64| exists|s: int| 0 <= s < indexes.len() && names_payload(#[trigger] indexes[s], id),
    )
}

/// The key of the payload `id` in the keyspace of the payloads: the id in
/// eight bytes, the least significant first.
pub open spec fn key_of(id: u64) -> Seq<u8> {
    spec_u64_to_le_bytes(id)
}

/// The id that a key of the keyspace of the payloads denotes: that of
/// which it is the key; `None` for a key that is not eight bytes long.
pub open spec fn id_of(key: Seq<u8>) -> Option<u64> {
    if key.len() == 8 {
        Some(spec_u64_from_le_bytes(key))
    } else {
        None
    }
}

/// The keys of a listing as byte strings.
pub open spec fn key_views(keys: Seq<Vec<u8>>) -> Seq<Seq<u8>> {
    keys.map_values(|key: Vec<u8>| key@)
}

/// Whether every key of a listing denotes an id.
pub open spec fn all_keys(keys: Seq<Seq<u8>>) -> bool {
    forall|i: int| 0 <= i < keys.len() ==> id_of(#[trigger] keys[i]) is Some
}

/// The key of a payload denotes the payload's id, and a key that denotes
/// an id is the key of that id.
pub proof fn lemma_key_round_trip(id: u64, key: Seq<u8>)
    ensures
        id_of(key_of(id)) == Some(id),
        id_of(key) == Some(id) ==> key == key_of(id),
{
    lemma_auto_spec_u64_to_from_le_bytes();
}

/// The key of the payload `id` in the keyspace of the payloads.
pub fn payload_key(id: u64) -> (key: Vec<u8>)
    ensures
        key@ == key_of(id),
        id_of(key@) == Some(id),
{
    proof {
        lemma_key_round_trip(id, key_of(id));
    }
    u64_to_le_bytes(id)
}

/// The id that a key of the keyspace of the payloads denotes.
pub fn parse_payload_key(key: &[u8]) -> (id: Option<u64>)
    ensures
        id == id_of(key@),
{
    if key.len() == 8 {
        Some(u64_from_le_bytes(key))
    } else {
        None
    }
}

/// The keyspace of the payloads, which are stored by id.
pub fn payload_keyspace() -> (name: &'static str)
    ensures
        name@ == "Payloads"@,
{
    "Payloads"
}

/// The keyspace of the sessions' indexes, which are stored by session id.
pub fn index_keyspace() -> (name: &'static str)
    ensures
        name@ == "Messages"@,
{
    "Messages"
}

impl GCStorage {
    /// The root location that the store was made for.
    pub closed spec fn root(&self) -> Seq<char> {
        self.location@
    }

    /// A store for the engine at `location`.
    pub fn new(location: &str) -> (storage: Self)
        ensures
            storage.root() == location@,
    {
        GCStorage { location: location.to_owned() }
    }

    /// The root location that the store was made for.
    pub fn location(&self) -> (location: &String)
        ensures
            location@ == self.root(),
    {
        &self.location
    }

    /// The messages of `records`, in order, each with the payload that
    /// `fetch` delivers for it.
    ///
    /// A payload that `fetch` cannot deliver fails the whole read, with
    /// the error that `fetch` gave: no message is handed out without its
    /// bytes.
    pub fn assemble<F: Fn(u64) -> Result<Vec<u8>, StorageError>>(
        records: Vec<DiskPublish>,
        fetch: &F,
    ) -> (r: Result<Vec<Publish>, StorageError>)
        requires
            forall|id: u64| call_requires(*fetch, (id,)),
        ensures
            match r {
                Ok(result) => fetched_all(disk_views(records@), *fetch, publish_views(result@)),
                Err(e) => fetch_fails(disk_views(records@), *fetch, e),
            },
    {
        let ghost views = disk_views(records@);
        let mut result: Vec<Publish> = Vec::new();
        let mut i: usize = 0;
        while i < records.len()
            invariant
                i <= records.len(),
                views == disk_views(records@),
                forall|id: u64| call_requires(*fetch, (id,)),
                fetched_all(views.take(i as int), *fetch, publish_views(result@)),
            decreases records.len() - i,
        {
            let record = records[i].clone();
            assert(record@ == views[i as int]);
            let ghost listed = publish_views(result@);
            match fetch(record.payload_id) {
                Ok(loaded) => {
                    let ghost kept = loaded;
                    let publish = record.into_publish(Arc::new(loaded));
                    result.push(publish);
                    proof {
                        let now = publish_views(result@);
                        assert(now =~= listed.push(publish@));
                        assert forall|j: int| 0 <= j < i + 1 implies (#[trigger] now[j])
                            == views.take(i as int + 1)[j].with_bytes(now[j].payload.bytes)
                            && exists|loaded: Vec<u8>|
                            loaded@ == now[j].payload.bytes && #[trigger] call_ensures(
                                *fetch,
                                (views.take(i as int + 1)[j].payload_id,),
                                Ok::<Vec<u8>, StorageError>(loaded),
                            ) by {
                            if j < i {
                                assert(now[j] == listed[j]);
                                assert(views.take(i as int)[j] == views.take(i as int + 1)[j]);
                                let earlier = choose|earlier: Vec<u8>|
                                    earlier@ == listed[j].payload.bytes && #[trigger] call_ensures(
                                        *fetch,
                                        (views.take(i as int)[j].payload_id,),
                                        Ok::<Vec<u8>, StorageError>(earlier),
                                    );
                                assert(call_ensures(
                                    *fetch,
                                    (views.take(i as int + 1)[j].payload_id,),
                                    Ok::<Vec<u8>, StorageError>(earlier),
                                ));
                            } else {
                                assert(now[j] == publish@);
                                assert(views.take(i as int + 1)[j] == record@);
                                assert(kept@ == now[j].payload.bytes);
                                assert(call_ensures(
                                    *fetch,
                                    (views.take(i as int + 1)[j].payload_id,),
                                    Ok::<Vec<u8>, StorageError>(kept),
                                ));
                            }
                        }
                        assert(now.len() == views.take(i as int + 1).len());
                        assert(fetched_all(views.take(i as int + 1), *fetch, now));
                    }
                },
                Err(e) => {
                    assert(call_ensures(
                        *fetch,
                        (views[i as int].payload_id,),
                        Err::<Vec<u8>, StorageError>(e),
                    ));
                    return Err(e);
                },
            }
            i += 1;
        }
        assert(views.take(records.len() as int) =~= views);
        Ok(result)
    }

    /// The ids that the keys of a listing of the payloads denote, in
    /// order.
    ///
    /// A listing with a key that denotes no id is [`StorageError::Codec`].
    pub fn get_payload_ids(keys: &Vec<Vec<u8>>) -> (r: Result<Vec<u64>, StorageError>)
        ensures
            match r {
                Ok(ids) => {
                    &&& ids@.len() == keys@.len()
                    &&& forall|i: int|
                        0 <= i < ids@.len() ==> id_of(keys@[i]@) == Some(#[trigger] ids@[i])
                },
                Err(e) => e == StorageError::Codec && !all_keys(key_views(keys@)),
            },
    {
        let mut ids: Vec<u64> = Vec::new();
        let mut i: usize = 0;
        while i < keys.len()
            invariant
                i <= keys.len(),
                ids@.len() == i,
                forall|j: int| 0 <= j < i ==> id_of(keys@[j]@) == Some(#[trigger] ids@[j]),
            decreases keys.len() - i,
        {
            match parse_payload_key(keys[i].as_slice()) {
                Some(id) => {
                    ids.push(id);
                },
                None => {
                    assert(key_views(keys@)[i as int] == keys@[i as int]@);
                    return Err(StorageError::Codec);
                },
            }
            i += 1;
        }
        Ok(ids)
    }

    /// Plans a collection: mark what the sessions' indexes name, sweep
    /// what is stored beyond that.
    ///
    /// `stored` lists the ids of the stored payloads and `indexes` the
    /// stored index of every session. The result holds one deletion for
    /// each stored id that no index names, and nothing else. If an index
    /// does not decode, nothing is deleted and the error is
    /// [`StorageError::Codec`].
    pub fn clean(&mut self, stored: &Vec<u64>, indexes: &Vec<Vec<u8>>) -> (r: Result<
        Vec<DiskOp>,
        StorageError,
    >)
        ensures
            final(self).root() == old(self).root(),
            r is Ok <==> all_decode(index_views(indexes@)),
            match r {
                Ok(ops) => is_sweep(
                    op_views(ops@),
                    stored@.to_set(),
                    indexed_ids(index_views(indexes@)),
                ),
                Err(e) => e == StorageError::Codec,
            },
    {
        broadcast use group_hash_axioms;

        let ghost views = index_views(indexes@);
        let mut referenced: HashSet<u64> = HashSet::new();
        let mut s: usize = 0;
        while s < indexes.len()
            invariant
                s <= indexes.len(),
                views == index_views(indexes@),
                all_decode(views.take(s as int)),
                referenced@ == indexed_ids(views.take(s as int)),
            decreases indexes.len() - s,
        {
            let records = match decode_index(indexes[s].as_slice()) {
                Ok(records) => records,
                Err(e) => {
                    assert(index_decoding(views[s as int]) is None);
                    return Err(e);
                },
            };
            let ghost decoded = disk_views(records@);
            let ghost ids = Seq::new(decoded.len(), |j: int| decoded[j].payload_id);
            let ghost marked = referenced@;
            let mut k: usize = 0;
            while k < records.len()
                invariant
                    k <= records.len(),
                    decoded == disk_views(records@),
                    ids == Seq::new(decoded.len(), |j: int| decoded[j].payload_id),
                    referenced@ == marked.union(ids.take(k as int).to_set()),
                decreases records.len() - k,
            {
                referenced.insert(records[k].payload_id);
                proof {
                    assert(ids[k as int] == records@[k as int].payload_id);
                    ids.take(k as int).lemma_push_to_set_commute(ids[k as int]);
                    assert(ids.take(k as int + 1) =~= ids.take(k as int).push(ids[k as int]));
                    assert(referenced@ =~= marked.union(ids.take(k as int + 1).to_set()));
                }
                k += 1;
            }
            proof {
                assert(ids.take(records.len() as int) =~= ids);
                let next = views.take(s as int + 1);
                assert(next[s as int] == views[s as int]);
                assert(views[s as int] == indexes@[s as int]@);
                assert(index_decoding(views[s as int]) == Some(decoded));
                assert forall|id: u64| ids.to_set().contains(id) <==> names_payload(
                    next[s as int],
                    id,
                ) by {
                    let index = next[s as int];
                    assert(index_decoding(index)->0 == decoded);
                    if ids.to_set().contains(id) {
                        let j = choose|j: int| 0 <= j < ids.len() && ids[j] == id;
                        assert(index_decoding(index)->0[j].payload_id == id);
                    }
                    if names_payload(index, id) {
                        let j = choose|j: int|
                            0 <= j < index_decoding(index)->0.len() && (#[trigger] index_decoding(
                                index,
                            )->0[j]).payload_id == id;
                        assert(ids[j] == id);
                    }
                }
                assert(all_decode(next)) by {
                    assert forall|t: int| 0 <= t < next.len() implies index_decoding(
                        #[trigger] next[t],
                    ) is Some by {
                        if t < s {
                            assert(views.take(s as int)[t] == next[t]);
                        }
                    }
                }
                assert(referenced@ =~= indexed_ids(next)) by {
                    assert forall|id: u64| referenced@.contains(id) implies indexed_ids(
                        next,
                    ).contains(id) by {
                        if marked.contains(id) {
                            let t = choose|t: int|
                                0 <= t < s && names_payload(
                                    #[trigger] views.take(s as int)[t],
                                    id,
                                );
                            assert(names_payload(next[t], id));
                        } else {
                            assert(names_payload(next[s as int], id));
                        }
                    }
                    assert forall|id: u64| indexed_ids(next).contains(
                        id,
                    ) implies referenced@.contains(id) by {
                        let t = choose|t: int|
                            0 <= t < next.len() && names_payload(#[trigger] next[t], id);
                        if t < s {
                            assert(names_payload(views.take(s as int)[t], id));
                        } else {
                            assert(ids.to_set().contains(id));
                        }
                    }
                }
            }
            s += 1;
        }
        assert(views.take(indexes.len() as int) =~= views);
        Ok(sweep(stored, &referenced))
    }
}

impl Storage for GCStorage {
    type Stored = Option<Vec<u8>>;

    /// Plans the write of a batch to a session: for each message, in
    /// order, an operation that stores its payload unless its id is
    /// stored, then one that replaces the session's index with the
    /// records of the batch. Bytes presented under a stored id are not
    /// compared with the stored ones: the first write of an id wins. The stored index
    /// decodes to these records. The operations are to be committed as one
    /// atomic batch. Every batch can be written.
    fn write(&mut self, session_id: &str, publishes: &[Publish]) -> (r: Result<
        Vec<DiskOp>,
        StorageError,
    >)
        ensures
            final(self).root() == old(self).root(),
            r is Ok,
            op_views(r->Ok_0@) == batch_ops(session_id@, publish_views(publishes@)),
            index_decoding(index_encoding(records_of(publish_views(publishes@)))) == Some(
                records_of(publish_views(publishes@)),
            ),
    {
        let ghost views = publish_views(publishes@);
        let mut ops: Vec<DiskOp> = Vec::new();
        let mut records: Vec<DiskPublish> = Vec::new();
        let mut i: usize = 0;
        while i < publishes.len()
            invariant
                i <= publishes.len(),
                views == publish_views(publishes@),
                op_views(ops@) == payload_puts(views.take(i as int)),
                disk_views(records@) == records_of(views.take(i as int)),
            decreases publishes.len() - i,
        {
            let publish = &publishes[i];
            let ghost puts = op_views(ops@);
            let ghost listed = disk_views(records@);
            ops.push(
                DiskOp::PutPayloadIfAbsent {
                    id: publish.payload.id,
                    bytes: publish.payload.bytes.clone(),
                },
            );
            records.push(publish.to_disk());
            proof {
                assert(views.take(i as int + 1) =~= views.take(i as int).push(publish@));
                assert(op_views(ops@) =~= puts.push(
                    DiskOpView::PutPayloadIfAbsent {
                        id: publish.payload.id,
                        bytes: publish.payload.bytes@,
                    },
                ));
                assert(op_views(ops@) =~= payload_puts(views.take(i as int + 1)));
                assert(disk_views(records@) =~= listed.push(publish@.on_disk()));
                assert(disk_views(records@) =~= records_of(views.take(i as int + 1)));
            }
            i += 1;
        }
        assert(views.take(publishes.len() as int) =~= views);
        let body = match encode_index(&records) {
            Ok(body) => body,
            Err(e) => {
                return Err(e);
            },
        };
        let ghost puts = op_views(ops@);
        ops.push(DiskOp::PutSession { session: session_id.to_owned(), body });
        assert(op_views(ops@) =~= puts.push(
            DiskOpView::PutSession { session: session_id@, body: index_encoding(records_of(views)) },
        ));
        Ok(ops)
    }

    /// Reads a session from what the engine holds for it.
    ///
    /// `stored` is the session's index, `None` for a session for which
    /// nothing is stored, and the result is then empty. An index that
    /// does not decode is [`StorageError::Codec`]. Otherwise the result
    /// holds the messages of the index in order, each with the payload that
    /// `fetch` delivers for it; if `fetch` fails for one of them, the read
    /// fails with that error.
    fn read<F: Fn(u64) -> Result<Vec<u8>, StorageError>>(
        &mut self,
        stored: Option<Vec<u8>>,
        fetch: &F,
    ) -> (r: Result<Vec<Publish>, StorageError>)
        ensures
            final(self).root() == old(self).root(),
            index_read(
                match stored {
                    Some(index) => Some(index@),
                    None => None,
                },
                *fetch,
                outcome_views(r),
            ),
    {
        let index = match stored {
            None => {
                let empty: Vec<Publish> = Vec::new();
                assert(publish_views(empty@) =~= Seq::<PublishView>::empty());
                return Ok(empty);
            },
            Some(index) => index,
        };
        let records = match decode_index(index.as_slice()) {
            Ok(records) => records,
            Err(e) => {
                return Err(e);
            },
        };
        GCStorage::assemble(records, fetch)
    }
}

} // verus!
