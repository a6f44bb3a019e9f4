//! What holds of the storage engines over every medium, proved over the
//! model of the medium.

use crate::atomic::{batch_ops, fetch_fails, index_read, payload_puts, records_of};
use crate::codec::{
    batch_decoding, batch_encoding, index_decoding, index_encoding, record_decoding,
    record_encoding,
};
use crate::consolidated::{cache_shared, same_but_bytes, shared_by_id, DedupKey};
use crate::disk::{Disk, DiskOpView};
use crate::collector::{deleted_ids, deletion, is_sweep};
use crate::error::StorageError;
use crate::gc::{
    append_ops, cache_after, decodable, decode_back, fetched, first_failure, publish_ops, read_of,
    read_steps, resolves, session_read,
};
use crate::record::{DiskPublishView, PublishView};
use vstd::prelude::*;

verus! {

/// Whether `fetch` answers for the payloads of a medium: it delivers
/// the stored bytes of an id that is stored, and fails for any other id.
pub open spec fn fetches_from<F: Fn(u64) -> Result<Vec<u8>, StorageError>>(
    fetch: F,
    payloads: Map<u64, Seq<u8>>,
) -> bool {
    forall|id: u64, answer: Result<Vec<u8>, StorageError>| #[trigger]
        call_ensures(fetch, (id,), answer) ==> match answer {
            Ok(bytes) => payloads.contains_key(id) && payloads[id] == bytes@,
            Err(_) => !payloads.contains_key(id),
        }
}

/// Whether a cache agrees with the payloads of a medium on every id that
/// both hold.
pub open spec fn coherent(cache: Map<u64, Seq<u8>>, payloads: Map<u64, Seq<u8>>) -> bool {
    forall|id: u64| #[trigger]
        cache.contains_key(id) && payloads.contains_key(id) ==> cache[id] == payloads[id]
}

/// The messages of `records`, each with the bytes stored for its payload.
pub open spec fn with_stored(records: Seq<DiskPublishView>, payloads: Map<u64, Seq<u8>>) -> Seq<
    PublishView,
> {
    Seq::new(records.len(), |i: int| records[i].with_bytes(payloads[records[i].payload_id]))
}

proof fn lemma_read_steps<F: Fn(u64) -> Result<Vec<u8>, StorageError>>(
    cache: Map<u64, Seq<u8>>,
    records: Seq<DiskPublishView>,
    fetch: F,
    done: Seq<PublishView>,
    payloads: Map<u64, Seq<u8>>,
    n: int,
)
    requires
        0 <= n <= done.len(),
        read_steps(cache, records, fetch, done),
        fetches_from(fetch, payloads),
        coherent(cache, payloads),
        forall|i: int| 0 <= i < records.len() ==> payloads.contains_key(records[i].payload_id),
    ensures
        coherent(cache_after(cache, done, n), payloads),
        forall|i: int| 0 <= i < n ==> #[trigger] done[i] == with_stored(records, payloads)[i],
    decreases n,
{
    if n > 0 {
        lemma_read_steps(cache, records, fetch, done, payloads, n - 1);
        let before = cache_after(cache, done, n - 1);
        let id = records[n - 1].payload_id;
        let bytes = done[n - 1].payload.bytes;
        assert(done[n - 1] == records[n - 1].with_bytes(bytes));
        assert(resolves(before, fetch, id, bytes));
        assert(payloads.contains_key(id));
        if !(before.contains_key(id) && before[id] == bytes) {
            assert(fetched(fetch, id, bytes));
            let loaded = choose|loaded: Vec<u8>|
                loaded@ == bytes && #[trigger] call_ensures(
                    fetch,
                    (id,),
                    Ok::<Vec<u8>, StorageError>(loaded),
                );
            assert(payloads[id] == loaded@);
        }
        assert(bytes == payloads[id]);
    }
}

/// A read returns what is stored: when `fetch` answers for the payloads of
/// the medium, the cache agrees with them, and the payload of every
/// record is stored, resolving the records ends well, with the messages
/// of all the records, in order, each with the stored bytes of its
/// payload. The cache still agrees with the medium afterwards.
pub proof fn law_read_returns_stored<F: Fn(u64) -> Result<Vec<u8>, StorageError>>(
    cache: Map<u64, Seq<u8>>,
    records: Seq<DiskPublishView>,
    fetch: F,
    outcome: Result<Seq<PublishView>, StorageError>,
    cache_out: Map<u64, Seq<u8>>,
    payloads: Map<u64, Seq<u8>>,
)
    requires
        read_of(cache, records, fetch, outcome, cache_out),
        fetches_from(fetch, payloads),
        coherent(cache, payloads),
        forall|i: int| 0 <= i < records.len() ==> payloads.contains_key(records[i].payload_id),
    ensures
        outcome == Ok::<Seq<PublishView>, StorageError>(with_stored(records, payloads)),
        coherent(cache_out, payloads),
{
    match outcome {
        Ok(result) => {
            lemma_read_steps(cache, records, fetch, result, payloads, result.len() as int);
            assert(result =~= with_stored(records, payloads));
        },
        Err(e) => {
            let done = choose|done: Seq<PublishView>|
                {
                    &&& #[trigger] read_steps(cache, records, fetch, done)
                    &&& done.len() < records.len()
                    &&& call_ensures(
                        fetch,
                        (records[done.len() as int].payload_id,),
                        Err::<Vec<u8>, StorageError>(e),
                    )
                    &&& cache_out == cache_after(cache, done, done.len() as int)
                };
            assert(payloads.contains_key(records[done.len() as int].payload_id));
            assert(false);
        },
    }
}

proof fn lemma_cached_ids(cache: Map<u64, Seq<u8>>, done: Seq<PublishView>, n: int, id: u64)
    requires
        0 <= n <= done.len(),
        cache_after(cache, done, n).contains_key(id),
    ensures
        cache.contains_key(id) || exists|j: int| 0 <= j < n && (#[trigger] done[j]).payload.id == id,
    decreases n,
{
    if n > 0 {
        if done[n - 1].payload.id != id {
            lemma_cached_ids(cache, done, n - 1, id);
        }
    }
}

/// A read fails where a payload is missing: if `fetch` answers for the
/// payloads of the medium, and some record names a payload that is neither
/// stored nor cached, resolving the records fails. No message is handed
/// out for a payload that cannot be had.
pub proof fn law_read_fails_without_payload<F: Fn(u64) -> Result<Vec<u8>, StorageError>>(
    cache: Map<u64, Seq<u8>>,
    records: Seq<DiskPublishView>,
    fetch: F,
    outcome: Result<Seq<PublishView>, StorageError>,
    cache_out: Map<u64, Seq<u8>>,
    payloads: Map<u64, Seq<u8>>,
    k: int,
)
    requires
        read_of(cache, records, fetch, outcome, cache_out),
        fetches_from(fetch, payloads),
        0 <= k < records.len(),
        !payloads.contains_key(records[k].payload_id),
        !cache.contains_key(records[k].payload_id),
    ensures
        outcome is Err,
{
    if outcome is Ok {
        let result = outcome->Ok_0;
        lemma_resolved_is_stored(cache, records, fetch, result, payloads, records[k].payload_id, k);
    }
}

proof fn lemma_resolved_is_stored<F: Fn(u64) -> Result<Vec<u8>, StorageError>>(
    cache: Map<u64, Seq<u8>>,
    records: Seq<DiskPublishView>,
    fetch: F,
    done: Seq<PublishView>,
    payloads: Map<u64, Seq<u8>>,
    id: u64,
    k: int,
)
    requires
        read_steps(cache, records, fetch, done),
        fetches_from(fetch, payloads),
        0 <= k < done.len(),
        records[k].payload_id == id,
        !cache.contains_key(id),
    ensures
        payloads.contains_key(id),
    decreases k,
{
    let bytes = done[k].payload.bytes;
    assert(done[k] == records[k].with_bytes(bytes));
    assert(resolves(cache_after(cache, done, k), fetch, id, bytes));
    if cache_after(cache, done, k).contains_key(id) {
        lemma_cached_ids(cache, done, k, id);
        let j = choose|j: int| 0 <= j < k && (#[trigger] done[j]).payload.id == id;
        assert(done[j] == records[j].with_bytes(done[j].payload.bytes));
        lemma_resolved_is_stored(cache, records, fetch, done, payloads, id, j);
    } else {
        assert(fetched(fetch, id, bytes));
        let loaded = choose|loaded: Vec<u8>|
            loaded@ == bytes && #[trigger] call_ensures(
                fetch,
                (id,),
                Ok::<Vec<u8>, StorageError>(loaded),
            );
        assert(payloads.contains_key(id));
    }
}

proof fn lemma_deletions(disk: Disk, ops: Seq<DiskOpView>)
    requires
        forall|i: int| 0 <= i < ops.len() ==> #[trigger] ops[i] is DeletePayload,
    ensures
        disk.apply_all(ops).messages == disk.messages,
        disk.apply_all(ops).sessions == disk.sessions,
        disk.apply_all(ops).payloads == disk.payloads.remove_keys(deleted_ids(ops)),
    decreases ops.len(),
{
    if ops.len() == 0 {
        assert(disk.payloads =~= disk.payloads.remove_keys(deleted_ids(ops)));
    } else {
        let rest = ops.drop_last();
        lemma_deletions(disk, rest);
        let last = ops.last();
        assert(last is DeletePayload);
        let id = last->DeletePayload_id;
        assert(last == deletion(id));
        assert forall|other: u64| deleted_ids(ops).contains(other) <==> (deleted_ids(
            rest,
        ).contains(other) || other == id) by {
            let op = deletion(other);
            if ops.contains(op) {
                let j = choose|j: int| 0 <= j < ops.len() && ops[j] == op;
                if j < rest.len() {
                    assert(rest[j] == op);
                }
            }
            if rest.contains(op) {
                let j = choose|j: int| 0 <= j < rest.len() && rest[j] == op;
                assert(ops[j] == op);
            }
            if other == id {
                assert(ops[ops.len() - 1] == op);
            }
        }
        assert(disk.apply_all(ops).payloads =~= disk.payloads.remove_keys(deleted_ids(ops)));
    }
}

/// A sweep leaves exactly the referenced payloads: once the sweep of what
/// is stored and not in `referenced` is carried out, the stored payloads
/// are those that were stored and are in `referenced`, with their bytes,
/// and nothing else of the medium has changed.
pub proof fn law_sweep_leaves_the_referenced(
    disk: Disk,
    ops: Seq<DiskOpView>,
    referenced: Set<u64>,
)
    requires
        is_sweep(ops, disk.payloads.dom(), referenced),
    ensures
        disk.apply_all(ops) == (Disk { payloads: disk.payloads.restrict(referenced), ..disk }),
{
    lemma_deletions(disk, ops);
    let after = disk.apply_all(ops);
    assert(after.payloads =~= disk.payloads.restrict(referenced)) by {
        assert forall|id: u64| deleted_ids(ops).contains(id) <==> (disk.payloads.dom().contains(
            id,
        ) && !referenced.contains(id)) by {
            assert(ops.contains(deletion(id)) <==> (disk.payloads.dom().contains(id)
                && !referenced.contains(id)));
        }
    }
}

/// Collection is safe in the atomic-batch store. Carrying out the sweep
/// that the collector plans leaves the sessions' indexes untouched, keeps
/// every payload that some index names, with the same bytes, and leaves
/// no payload stored that no index names.
pub proof fn law_atomic_collection_is_safe(disk: Disk, ops: Seq<DiskOpView>)
    requires
        is_sweep(ops, disk.payloads.dom(), disk.indexed()),
    ensures
        disk.apply_all(ops).sessions == disk.sessions,
        forall|id: u64|
            disk.indexes(id) && #[trigger] disk.payloads.contains_key(id) ==> disk.apply_all(
                ops,
            ).payloads.contains_key(id) && disk.apply_all(ops).payloads[id] == disk.payloads[id],
        forall|id: u64| #[trigger]
            disk.apply_all(ops).payloads.contains_key(id) ==> disk.apply_all(ops).indexes(id),
{
    law_sweep_leaves_the_referenced(disk, ops, disk.indexed());
    let after = disk.apply_all(ops);
    assert(after.sessions == disk.sessions);
    assert forall|id: u64| #[trigger] after.payloads.contains_key(id) implies after.indexes(
        id,
    ) by {
        assert(disk.indexed().contains(id));
        assert(disk.indexes(id));
        let session = choose|session: Seq<char>| #[trigger]
            disk.sessions.contains_key(session) && crate::disk::names_payload(
                disk.sessions[session],
                id,
            );
        assert(after.sessions.contains_key(session));
    }
    assert forall|id: u64|
        disk.indexes(id) && #[trigger] disk.payloads.contains_key(
            id,
        ) implies after.payloads.contains_key(id) && after.payloads[id] == disk.payloads[id] by {
        assert(disk.indexed().contains(id));
    }
}

/// Collection is idempotent in the atomic-batch store: after a sweep has
/// been carried out, the next collection, with no write in between, plans
/// nothing.
pub proof fn law_atomic_collection_is_idempotent(
    disk: Disk,
    first: Seq<DiskOpView>,
    second: Seq<DiskOpView>,
)
    requires
        is_sweep(first, disk.payloads.dom(), disk.indexed()),
        is_sweep(second, disk.apply_all(first).payloads.dom(), disk.apply_all(first).indexed()),
    ensures
        second.len() == 0,
        disk.apply_all(first).apply_all(second) == disk.apply_all(first),
{
    law_atomic_collection_is_safe(disk, first);
    let once = disk.apply_all(first);
    if second.len() > 0 {
        let op = second[0];
        assert(op is DeletePayload);
        let id = op->DeletePayload_id;
        assert(op == deletion(id));
        assert(second.contains(deletion(id)));
        assert(once.payloads.contains_key(id));
        assert(once.indexes(id));
        assert(once.indexed().contains(id));
        assert(false);
    }
}

/// Collection is safe. Carrying out the sweep that the collector plans
/// for a medium leaves exactly the collected medium: the message indexes
/// are untouched, every payload that some session references is still
/// stored with the same bytes, and every payload still stored is referenced
/// by some session.
pub proof fn law_collection_is_safe(disk: Disk, ops: Seq<DiskOpView>)
    requires
        is_sweep(ops, disk.payloads.dom(), disk.referenced()),
    ensures
        disk.apply_all(ops) == disk.collected(),
        disk.apply_all(ops).messages == disk.messages,
        forall|id: u64|
            disk.references(id) && #[trigger] disk.payloads.contains_key(id) ==> disk.apply_all(
                ops,
            ).payloads.contains_key(id) && disk.apply_all(ops).payloads[id] == disk.payloads[id],
        forall|id: u64| #[trigger]
            disk.apply_all(ops).payloads.contains_key(id) ==> disk.apply_all(ops).references(id),
{
    lemma_deletions(disk, ops);
    let after = disk.apply_all(ops);
    assert(after.payloads =~= disk.payloads.restrict(disk.referenced())) by {
        assert forall|id: u64| deleted_ids(ops).contains(id) <==> (disk.payloads.dom().contains(
            id,
        ) && !disk.referenced().contains(id)) by {
            assert(ops.contains(deletion(id)) <==> (disk.payloads.dom().contains(id)
                && !disk.referenced().contains(id)));
        }
    }
    assert forall|id: u64| #[trigger] after.payloads.contains_key(id) implies after.references(
        id,
    ) by {
        assert(disk.referenced().contains(id));
        assert(disk.references(id));
    }
    assert forall|id: u64|
        disk.references(id) && #[trigger] disk.payloads.contains_key(
            id,
        ) implies after.payloads.contains_key(id) && after.payloads[id] == disk.payloads[id] by {
        assert(disk.referenced().contains(id));
    }
}

/// While a sweep is being carried out, in whatever order and however far,
/// no referenced payload is lost: after any part of the planned deletions,
/// every payload that some session references is stored as before.
pub proof fn law_partial_sweep_is_safe(disk: Disk, ops: Seq<DiskOpView>, done: Seq<DiskOpView>)
    requires
        is_sweep(ops, disk.payloads.dom(), disk.referenced()),
        forall|i: int| 0 <= i < done.len() ==> ops.contains(#[trigger] done[i]),
    ensures
        disk.apply_all(done).messages == disk.messages,
        forall|id: u64|
            disk.references(id) && #[trigger] disk.payloads.contains_key(id) ==> disk.apply_all(
                done,
            ).payloads.contains_key(id) && disk.apply_all(done).payloads[id] == disk.payloads[id],
{
    assert forall|i: int| 0 <= i < done.len() implies #[trigger] done[i] is DeletePayload by {
        let j = choose|j: int| 0 <= j < ops.len() && ops[j] == done[i];
        assert(ops[j] is DeletePayload);
    }
    lemma_deletions(disk, done);
    assert forall|id: u64|
        disk.references(id) && #[trigger] disk.payloads.contains_key(id) implies disk.apply_all(
        done,
    ).payloads.contains_key(id) && disk.apply_all(done).payloads[id] == disk.payloads[id] by {
        assert(disk.referenced().contains(id));
        if done.contains(deletion(id)) {
            let i = choose|i: int| 0 <= i < done.len() && done[i] == deletion(id);
            assert(ops.contains(done[i]));
            assert(ops.contains(deletion(id)));
        }
    }
}

/// Collection is idempotent. After a sweep has been carried out, the
/// next collection, with no write in between, plans nothing, so the set of
/// stored payloads is the same after two collections as after one.
pub proof fn law_collection_is_idempotent(
    disk: Disk,
    first: Seq<DiskOpView>,
    second: Seq<DiskOpView>,
)
    requires
        is_sweep(first, disk.payloads.dom(), disk.referenced()),
        is_sweep(
            second,
            disk.apply_all(first).payloads.dom(),
            disk.apply_all(first).referenced(),
        ),
    ensures
        second.len() == 0,
        disk.apply_all(first).apply_all(second) == disk.apply_all(first),
        disk.collected().collected() == disk.collected(),
{
    law_collection_is_safe(disk, first);
    let once = disk.apply_all(first);
    if second.len() > 0 {
        let op = second[0];
        assert(op is DeletePayload);
        let id = op->DeletePayload_id;
        assert(op == deletion(id));
        assert(second.contains(deletion(id)));
        assert(once.payloads.contains_key(id));
        assert(once.references(id));
        assert(once.referenced().contains(id));
        assert(false);
    }
    assert(once.referenced() =~= disk.referenced());
    assert(once.payloads.restrict(once.referenced()) =~= once.payloads);
}

/// The payload ids of a batch of messages, in order.
pub open spec fn payload_ids(publishes: Seq<PublishView>) -> Seq<u64> {
    Seq::new(publishes.len(), |i: int| publishes[i].payload.id)
}

/// An append write in two calls plans what one call with both batches
/// plans.
pub proof fn lemma_append_ops_concat(
    session: Seq<char>,
    first: Seq<PublishView>,
    second: Seq<PublishView>,
)
    ensures
        append_ops(session, first + second) == append_ops(session, first) + append_ops(
            session,
            second,
        ),
    decreases second.len(),
{
    if second.len() == 0 {
        assert(first + second =~= first);
        assert(append_ops(session, first) + append_ops(session, second) =~= append_ops(
            session,
            first,
        ));
    } else {
        lemma_append_ops_concat(session, first, second.drop_last());
        assert((first + second).drop_last() =~= first + second.drop_last());
        assert((first + second).last() == second.last());
        assert(append_ops(session, first + second) =~= append_ops(session, first) + append_ops(
            session,
            second,
        ));
    }
}

/// What an append write does to a medium once its operations are carried
/// out.
///
/// Only the session's index and the payloads change. The index gains an
/// entry for each payload id of the batch and keeps its other entries; the
/// entry of an id holds the record of the last message with that payload
/// id. The payloads gain each id of the batch that was not stored, with
/// the bytes of the first message that brought it; stored payloads keep
/// their bytes.
pub proof fn lemma_append_effect(disk: Disk, session: Seq<char>, publishes: Seq<PublishView>)
    ensures
        ({
            let after = disk.apply_all(append_ops(session, publishes));
            &&& after.sessions == disk.sessions
            &&& after.messages.remove(session) == disk.messages.remove(session)
            &&& after.entries(session).dom() == disk.entries(session).dom().union(
                payload_ids(publishes).to_set(),
            )
            &&& forall|key: u64|
                disk.entries(session).contains_key(key) && !payload_ids(publishes).contains(key)
                    ==> #[trigger] after.entries(session)[key] == disk.entries(session)[key]
            &&& forall|i: int|
                0 <= i < publishes.len() && (forall|j: int|
                    i < j < publishes.len() ==> publishes[j].payload.id != publishes[i].payload.id)
                    ==> after.entries(session)[#[trigger] publishes[i].payload.id]
                    == record_encoding(publishes[i].on_disk())
            &&& after.payloads.dom() == disk.payloads.dom().union(payload_ids(publishes).to_set())
            &&& forall|id: u64|
                disk.payloads.contains_key(id) ==> #[trigger] after.payloads[id]
                    == disk.payloads[id]
            &&& forall|i: int|
                0 <= i < publishes.len() && !disk.payloads.contains_key(publishes[i].payload.id)
                    && (forall|j: int|
                    0 <= j < i ==> publishes[j].payload.id != publishes[i].payload.id)
                    ==> after.payloads[#[trigger] publishes[i].payload.id]
                    == publishes[i].payload.bytes
        }),
    decreases publishes.len(),
{
    let after = disk.apply_all(append_ops(session, publishes));
    if publishes.len() == 0 {
        assert(payload_ids(publishes).to_set() =~= Set::<u64>::empty());
        assert(after.entries(session).dom() =~= disk.entries(session).dom().union(
            payload_ids(publishes).to_set(),
        ));
        assert(after.payloads.dom() =~= disk.payloads.dom().union(
            payload_ids(publishes).to_set(),
        ));
    } else {
        let rest = publishes.drop_last();
        let last = publishes.last();
        let n = publishes.len() - 1;
        lemma_append_effect(disk, session, rest);
        let before = disk.apply_all(append_ops(session, rest));
        let ops = publish_ops(session, last);
        crate::disk::lemma_apply_all_concat(disk, append_ops(session, rest), ops);
        assert(before.apply_all(ops) == before.apply(ops[0]).apply(ops[1])) by {
            assert(ops.drop_last().drop_last() =~= Seq::<DiskOpView>::empty());
            assert(ops.drop_last().last() == ops[0]);
            assert(ops.last() == ops[1]);
            assert(before.apply_all(ops.drop_last().drop_last()) == before);
            assert(before.apply_all(ops.drop_last()) == before.apply(ops[0]));
        }
        let filed = before.apply(ops[0]);
        assert(after == filed.apply(ops[1]));
        assert(payload_ids(publishes) =~= payload_ids(rest).push(last.payload.id));
        payload_ids(rest).lemma_push_to_set_commute(last.payload.id);
        assert forall|key: u64| payload_ids(publishes).contains(key) <==> (payload_ids(
            rest,
        ).contains(key) || key == last.payload.id) by {
            assert(payload_ids(publishes).to_set().contains(key) <==> payload_ids(
                publishes,
            ).contains(key));
            assert(payload_ids(rest).to_set().contains(key) <==> payload_ids(rest).contains(key));
        }
        assert(after.messages.remove(session) =~= disk.messages.remove(session)) by {
            assert(after.messages.remove(session) =~= before.messages.remove(session));
        }
        assert(after.entries(session) == before.entries(session).insert(
            last.payload.id,
            record_encoding(last.on_disk()),
        ));
        assert(after.entries(session).dom() =~= disk.entries(session).dom().union(
            payload_ids(publishes).to_set(),
        ));
        assert(after.payloads.dom() =~= disk.payloads.dom().union(
            payload_ids(publishes).to_set(),
        ));
        assert forall|i: int|
            0 <= i < publishes.len() && (forall|j: int|
                i < j < publishes.len() ==> publishes[j].payload.id
                    != publishes[i].payload.id) implies after.entries(
            session,
        )[#[trigger] publishes[i].payload.id] == record_encoding(publishes[i].on_disk()) by {
            if i < n {
                assert(publishes[n].payload.id != publishes[i].payload.id);
                assert(rest[i] == publishes[i]);
                assert forall|j: int| i < j < rest.len() implies rest[j].payload.id
                    != rest[i].payload.id by {
                    assert(rest[j] == publishes[j]);
                }
            }
        }
        assert forall|i: int|
            0 <= i < publishes.len() && !disk.payloads.contains_key(publishes[i].payload.id)
                && (forall|j: int|
                0 <= j < i ==> publishes[j].payload.id
                    != publishes[i].payload.id) implies after.payloads[#[trigger] publishes[i].payload.id]
            == publishes[i].payload.bytes by {
            if i < n {
                assert(rest[i] == publishes[i]);
                assert forall|j: int| 0 <= j < i implies rest[j].payload.id
                    != rest[i].payload.id by {
                    assert(rest[j] == publishes[j]);
                }
                assert(before.payloads.contains_key(publishes[i].payload.id)) by {
                    assert(payload_ids(rest)[i] == publishes[i].payload.id);
                    assert(payload_ids(rest).to_set().contains(publishes[i].payload.id));
                }
            } else {
                if before.payloads.contains_key(last.payload.id) {
                    assert(payload_ids(rest).to_set().contains(last.payload.id));
                    let j = choose|j: int|
                        0 <= j < payload_ids(rest).len() && payload_ids(rest)[j]
                            == last.payload.id;
                    assert(publishes[j].payload.id == publishes[i].payload.id);
                    assert(false);
                }
            }
        }
        assert forall|key: u64|
            disk.entries(session).contains_key(key) && !payload_ids(publishes).contains(
                key,
            ) implies #[trigger] after.entries(session)[key] == disk.entries(session)[key] by {
            assert(!payload_ids(rest).contains(key));
            assert(before.entries(session)[key] == disk.entries(session)[key]);
        }
        assert forall|id: u64| disk.payloads.contains_key(id) implies #[trigger] after.payloads[id]
            == disk.payloads[id] by {
            assert(before.payloads[id] == disk.payloads[id]);
            assert(before.payloads.contains_key(id));
        }
    }
}

/// Whether `keys` names each entry of a session's index exactly once.
pub open spec fn enumerates(keys: Seq<u64>, index: Map<u64, Seq<u8>>) -> bool {
    keys.no_duplicates() && keys.to_set() == index.dom()
}

/// What a medium lists for a session's index when it walks the entries in
/// the order of `keys` and can read each of them.
pub open spec fn listing(index: Map<u64, Seq<u8>>, keys: Seq<u64>) -> Seq<Option<Seq<u8>>> {
    Seq::new(keys.len(), |i: int| Some(index[keys[i]]))
}

proof fn lemma_decodable_all(entries: Seq<Option<Seq<u8>>>, records: Seq<DiskPublishView>)
    requires
        entries.len() == records.len(),
        forall|i: int|
            0 <= i < entries.len() ==> (#[trigger] entries[i]) is Some && record_decoding(
                entries[i]->0,
            ) == Some(records[i]),
    ensures
        decodable(entries) == records,
        first_failure(entries) is None,
    decreases entries.len(),
{
    if entries.len() == 0 {
        assert(decodable(entries) =~= records);
    } else {
        lemma_decodable_all(entries.drop_last(), records.drop_last());
        assert(entries.last() == entries[entries.len() - 1]);
        assert(decodable(entries) =~= records);
    }
}

/// Round trip through the append store. A batch is written to a session
/// that held nothing, and the session is read back once the operations
/// are carried out. If the payload ids of the batch are pairwise distinct
/// and no other bytes are stored under any of them, the read ends well
/// and returns the
/// messages of the batch, each exactly as it was written, in the order in
/// which the medium lists the session's entries: the message with payload
/// id `keys[i]` stands at place `i`. Where the medium lists the entries in
/// the order of writing, the result is the batch.
pub proof fn law_append_round_trip<F: Fn(u64) -> Result<Vec<u8>, StorageError>>(
    disk: Disk,
    session: Seq<char>,
    publishes: Seq<PublishView>,
    keys: Seq<u64>,
    cache: Map<u64, Seq<u8>>,
    fetch: F,
    outcome: Result<Seq<PublishView>, StorageError>,
    cache_out: Map<u64, Seq<u8>>,
)
    requires
        decode_back(publishes),
        disk.entries(session).dom() == Set::<u64>::empty(),
        payload_ids(publishes).no_duplicates(),
        forall|i: int|
            0 <= i < publishes.len() && disk.payloads.contains_key(
                #[trigger] publishes[i].payload.id,
            ) ==> disk.payloads[publishes[i].payload.id] == publishes[i].payload.bytes,
        enumerates(keys, disk.apply_all(append_ops(session, publishes)).entries(session)),
        fetches_from(fetch, disk.apply_all(append_ops(session, publishes)).payloads),
        coherent(cache, disk.apply_all(append_ops(session, publishes)).payloads),
        session_read(
            cache,
            Some(listing(disk.apply_all(append_ops(session, publishes)).entries(session), keys)),
            fetch,
            outcome,
            cache_out,
        ),
    ensures
        outcome is Ok,
        outcome->Ok_0.len() == publishes.len(),
        forall|i: int, j: int|
            0 <= i < outcome->Ok_0.len() && 0 <= j < publishes.len() && keys[i]
                == publishes[j].payload.id ==> #[trigger] outcome->Ok_0[i]
                == #[trigger] publishes[j],
        keys == payload_ids(publishes) ==> outcome->Ok_0 == publishes,
        coherent(cache_out, disk.apply_all(append_ops(session, publishes)).payloads),
{
    let after = disk.apply_all(append_ops(session, publishes));
    let ids = payload_ids(publishes);
    let index = after.entries(session);
    lemma_append_effect(disk, session, publishes);
    assert(index.dom() =~= ids.to_set());
    keys.unique_seq_to_set();
    ids.unique_seq_to_set();
    assert(keys.len() == ids.len());
    let records = Seq::new(keys.len(), |i: int| publishes[ids.index_of(keys[i])].on_disk());
    let entries = listing(index, keys);
    assert forall|i: int| 0 <= i < keys.len() implies {
        let j = ids.index_of(#[trigger] keys[i]);
        &&& 0 <= j < publishes.len()
        &&& publishes[j].payload.id == keys[i]
        &&& index[keys[i]] == record_encoding(publishes[j].on_disk())
        &&& after.payloads.contains_key(keys[i])
        &&& after.payloads[keys[i]] == publishes[j].payload.bytes
    } by {
        assert(keys.to_set().contains(keys[i]));
        assert(ids.contains(keys[i]));
        let j = ids.index_of(keys[i]);
        assert(ids[j] == keys[i]);
        assert forall|k: int| 0 <= k < publishes.len() && k != j implies publishes[k].payload.id
            != publishes[j].payload.id by {
            assert(ids[k] != ids[j]);
        }
        assert(ids.to_set().contains(keys[i]));
    }
    assert forall|i: int| 0 <= i < entries.len() implies (#[trigger] entries[i]) is Some
        && record_decoding(entries[i]->0) == Some(records[i]) by {
        let j = ids.index_of(keys[i]);
        assert(record_decoding(record_encoding(publishes[j].on_disk())) == Some(
            publishes[j].on_disk(),
        ));
    }
    lemma_decodable_all(entries, records);
    assert forall|i: int| 0 <= i < records.len() implies after.payloads.contains_key(
        records[i].payload_id,
    ) by {
        let j = ids.index_of(keys[i]);
    }
    law_read_returns_stored(cache, records, fetch, outcome, cache_out, after.payloads);
    let result = outcome->Ok_0;
    assert forall|i: int, j: int|
        0 <= i < result.len() && 0 <= j < publishes.len() && keys[i]
            == publishes[j].payload.id implies #[trigger] result[i] == #[trigger] publishes[j] by {
        let k = ids.index_of(keys[i]);
        assert(ids[j] == keys[i]);
        assert(ids[k] == ids[j]);
        assert(k == j);
        assert(result[i] == records[i].with_bytes(after.payloads[records[i].payload_id]));
        assert(publishes[j].payload == crate::record::PayloadView {
            id: publishes[j].payload.id,
            bytes: publishes[j].payload.bytes,
        });
    }
    if keys == ids {
        assert forall|i: int| 0 <= i < result.len() implies result[i] == publishes[i] by {
            assert(keys[i] == publishes[i].payload.id);
        }
        assert(result =~= publishes);
    }
}

/// Round trip through the append store over two writes: writing one batch
/// and then another to a session that held nothing, with payload ids
/// pairwise distinct over both batches and no other bytes stored under
/// them, and reading the session back ends well and returns the messages of both
/// batches; where the medium lists the entries in the order of writing,
/// the result is the first batch followed by the second.
pub proof fn law_append_twice_round_trip<F: Fn(u64) -> Result<Vec<u8>, StorageError>>(
    disk: Disk,
    session: Seq<char>,
    first: Seq<PublishView>,
    second: Seq<PublishView>,
    keys: Seq<u64>,
    cache: Map<u64, Seq<u8>>,
    fetch: F,
    outcome: Result<Seq<PublishView>, StorageError>,
    cache_out: Map<u64, Seq<u8>>,
)
    requires
        decode_back(first),
        decode_back(second),
        disk.entries(session).dom() == Set::<u64>::empty(),
        payload_ids(first + second).no_duplicates(),
        forall|i: int|
            0 <= i < (first + second).len() && disk.payloads.contains_key(
                #[trigger] (first + second)[i].payload.id,
            ) ==> disk.payloads[(first + second)[i].payload.id] == (first
                + second)[i].payload.bytes,
        ({
            let after = disk.apply_all(append_ops(session, first)).apply_all(
                append_ops(session, second),
            );
            &&& enumerates(keys, after.entries(session))
            &&& fetches_from(fetch, after.payloads)
            &&& coherent(cache, after.payloads)
            &&& session_read(
                cache,
                Some(listing(after.entries(session), keys)),
                fetch,
                outcome,
                cache_out,
            )
        }),
    ensures
        outcome is Ok,
        outcome->Ok_0.len() == first.len() + second.len(),
        forall|i: int, j: int|
            0 <= i < outcome->Ok_0.len() && 0 <= j < (first + second).len() && keys[i] == (first
                + second)[j].payload.id ==> #[trigger] outcome->Ok_0[i] == #[trigger] (first
                + second)[j],
        keys == payload_ids(first + second) ==> outcome->Ok_0 == first + second,
{
    let both = first + second;
    lemma_append_ops_concat(session, first, second);
    crate::disk::lemma_apply_all_concat(
        disk,
        append_ops(session, first),
        append_ops(session, second),
    );
    assert(decode_back(both)) by {
        assert forall|i: int| 0 <= i < both.len() implies record_decoding(
            record_encoding(#[trigger] both[i].on_disk()),
        ) == Some(both[i].on_disk()) by {
            if i < first.len() {
                assert(both[i] == first[i]);
            } else {
                assert(both[i] == second[i - first.len()]);
            }
        }
    }
    law_append_round_trip(disk, session, both, keys, cache, fetch, outcome, cache_out);
}

/// A payload is stored once, and keeps the bytes that came first. Writing
/// a message to one session and then a message with the same payload id
/// to another stores the payload with the first write only: the second
/// write leaves the stored payloads as they are, whatever bytes it
/// brings. Both sessions then reference the one stored payload, which
/// holds the bytes of the first message unless the id was stored before.
pub proof fn law_payload_stored_once(
    disk: Disk,
    first_session: Seq<char>,
    second_session: Seq<char>,
    first: PublishView,
    second: PublishView,
)
    requires
        first.payload.id == second.payload.id,
    ensures
        ({
            let once = disk.apply_all(append_ops(first_session, seq![first]));
            let twice = once.apply_all(append_ops(second_session, seq![second]));
            &&& once.payloads.dom() == disk.payloads.dom().insert(first.payload.id)
            &&& twice.payloads == once.payloads
            &&& twice.entries(first_session).contains_key(first.payload.id)
            &&& twice.entries(second_session).contains_key(first.payload.id)
            &&& !disk.payloads.contains_key(first.payload.id) ==> twice.payloads[first.payload.id]
                == first.payload.bytes
        }),
{
    let once = disk.apply_all(append_ops(first_session, seq![first]));
    let twice = once.apply_all(append_ops(second_session, seq![second]));
    lemma_append_effect(disk, first_session, seq![first]);
    lemma_append_effect(once, second_session, seq![second]);
    let id = first.payload.id;
    assert(payload_ids(seq![first]) =~= seq![id]);
    assert(payload_ids(seq![second]) =~= seq![id]);
    assert(seq![id].to_set() =~= Set::<u64>::empty().insert(id)) by {
        assert(seq![id] =~= Seq::<u64>::empty().push(id));
        Seq::<u64>::empty().lemma_push_to_set_commute(id);
        assert(Seq::<u64>::empty().to_set() =~= Set::<u64>::empty());
    }
    assert(once.payloads.dom() =~= disk.payloads.dom().insert(id));
    assert(twice.payloads =~= once.payloads);
    assert(seq![first][0].payload.id == id);
    assert(seq![second][0].payload.id == id);
    assert(twice.entries(second_session).dom().contains(id));
    assert(once.entries(first_session).dom().contains(id));
    if first_session == second_session {
        assert(twice.entries(first_session).dom().contains(id));
    } else {
        assert(twice.messages.remove(second_session).contains_key(first_session)
            == once.messages.remove(second_session).contains_key(first_session));
        assert(once.messages.contains_key(first_session));
        assert(twice.messages.remove(second_session)[first_session] == once.messages.remove(
            second_session,
        )[first_session]);
    }
}

/// Whether messages of a batch that have the same payload id have the same
/// payload bytes.
pub open spec fn ids_name_bytes(publishes: Seq<PublishView>) -> bool {
    forall|i: int, j: int|
        0 <= i < publishes.len() && 0 <= j < publishes.len() && (#[trigger] publishes[i]).payload.id
            == (#[trigger] publishes[j]).payload.id ==> publishes[i].payload.bytes
            == publishes[j].payload.bytes
}

/// The operation with which a consolidated store writes a batch.
pub open spec fn consolidated_op(session: Seq<char>, publishes: Seq<PublishView>) -> DiskOpView {
    DiskOpView::PutSession { session, body: batch_encoding(publishes) }
}

/// A write to an overwrite store replaces what the session held: after
/// two writes to a session, the session holds what the second one stored.
pub proof fn law_overwrite_replaces(
    disk: Disk,
    session: Seq<char>,
    first: Seq<PublishView>,
    second: Seq<PublishView>,
)
    ensures
        disk.apply(consolidated_op(session, first)).apply(
            consolidated_op(session, second),
        ).sessions[session] == batch_encoding(second),
        disk.apply(consolidated_op(session, first)).apply(consolidated_op(session, second))
            == disk.apply(consolidated_op(session, second)),
{
    let once = disk.apply(consolidated_op(session, first));
    let twice = once.apply(consolidated_op(session, second));
    let direct = disk.apply(consolidated_op(session, second));
    assert(twice.sessions =~= direct.sessions);
}

proof fn lemma_shared_by_id_steps(
    cache: Map<u64, Seq<u8>>,
    decoded: Seq<PublishView>,
    result: Seq<PublishView>,
    n: int,
)
    requires
        0 <= n <= decoded.len(),
        shared_by_id(cache, decoded, result),
        ids_name_bytes(decoded),
        forall|i: int|
            0 <= i < decoded.len() && cache.contains_key(#[trigger] decoded[i].payload.id)
                ==> cache[decoded[i].payload.id] == decoded[i].payload.bytes,
    ensures
        forall|i: int| 0 <= i < n ==> #[trigger] result[i] == decoded[i],
        forall|i: int|
            0 <= i < decoded.len() && cache_shared(
                cache,
                DedupKey::PayloadId,
                decoded,
                result,
                n,
            ).contains_key(#[trigger] decoded[i].payload.id) ==> cache_shared(
                cache,
                DedupKey::PayloadId,
                decoded,
                result,
                n,
            )[decoded[i].payload.id] == decoded[i].payload.bytes,
    decreases n,
{
    if n > 0 {
        lemma_shared_by_id_steps(cache, decoded, result, n - 1);
        let before = cache_shared(cache, DedupKey::PayloadId, decoded, result, n - 1);
        let now = cache_shared(cache, DedupKey::PayloadId, decoded, result, n);
        assert(same_but_bytes(result[n - 1], decoded[n - 1]));
        assert(result[n - 1].payload.bytes == decoded[n - 1].payload.bytes);
        assert(decoded[n - 1].payload == crate::record::PayloadView {
            id: decoded[n - 1].payload.id,
            bytes: decoded[n - 1].payload.bytes,
        });
        assert(result[n - 1] == decoded[n - 1]);
        assert forall|i: int|
            0 <= i < decoded.len() && now.contains_key(
                #[trigger] decoded[i].payload.id,
            ) implies now[decoded[i].payload.id] == decoded[i].payload.bytes by {
            if decoded[i].payload.id == decoded[n - 1].payload.id {
                assert(decoded[i].payload.bytes == decoded[n - 1].payload.bytes);
            } else {
                assert(before.contains_key(decoded[i].payload.id));
            }
        }
    }
}

/// Round trip through the consolidated store. A batch is written to a
/// session and the session is read back once the write is carried out.
///
/// If the store recognises payloads by content, the read returns the
/// batch. If it recognises them by id, the read returns the batch provided
/// that an id names one byte string: within the batch, and between the
/// batch and what the cache holds.
pub proof fn law_consolidated_round_trip(
    disk: Disk,
    session: Seq<char>,
    publishes: Seq<PublishView>,
    dedup: DedupKey,
    cache: Map<u64, Seq<u8>>,
    result: Seq<PublishView>,
)
    requires
        batch_decoding(batch_encoding(publishes)) == Some(publishes),
        ({
            let stored = disk.apply(consolidated_op(session, publishes)).sessions[session];
            match dedup {
                DedupKey::ContentHash => Some(result) == batch_decoding(stored),
                DedupKey::PayloadId => batch_decoding(stored) is Some && shared_by_id(
                    cache,
                    batch_decoding(stored)->0,
                    result,
                ),
            }
        }),
        dedup == DedupKey::PayloadId ==> ids_name_bytes(publishes) && forall|i: int|
            0 <= i < publishes.len() && cache.contains_key(#[trigger] publishes[i].payload.id)
                ==> cache[publishes[i].payload.id] == publishes[i].payload.bytes,
    ensures
        result == publishes,
{
    if dedup == DedupKey::PayloadId {
        lemma_shared_by_id_steps(cache, publishes, result, publishes.len() as int);
        assert(result =~= publishes);
    }
}

/// What storing the payloads of a batch does to a medium: only the
/// payloads change; every payload id of the batch is stored afterwards;
/// a stored payload keeps its bytes, whatever the batch brings under its
/// id; and an id that was not stored holds the bytes of the first message
/// of the batch that brings it.
pub proof fn law_batch_stores_payloads(disk: Disk, publishes: Seq<PublishView>)
    ensures
        ({
            let after = disk.apply_all(payload_puts(publishes));
            &&& after.messages == disk.messages
            &&& after.sessions == disk.sessions
            &&& after.payloads.dom() == disk.payloads.dom().union(payload_ids(publishes).to_set())
            &&& forall|id: u64|
                disk.payloads.contains_key(id) ==> #[trigger] after.payloads[id]
                    == disk.payloads[id]
            &&& forall|i: int|
                0 <= i < publishes.len() && !disk.payloads.contains_key(publishes[i].payload.id)
                    && (forall|j: int|
                    0 <= j < i ==> publishes[j].payload.id != publishes[i].payload.id)
                    ==> after.payloads[#[trigger] publishes[i].payload.id]
                    == publishes[i].payload.bytes
        }),
    decreases publishes.len(),
{
    let after = disk.apply_all(payload_puts(publishes));
    if publishes.len() == 0 {
        assert(payload_ids(publishes).to_set() =~= Set::<u64>::empty());
        assert(after.payloads.dom() =~= disk.payloads.dom().union(
            payload_ids(publishes).to_set(),
        ));
    } else {
        let rest = publishes.drop_last();
        let last = publishes.last();
        let n = publishes.len() - 1;
        law_batch_stores_payloads(disk, rest);
        let before = disk.apply_all(payload_puts(rest));
        assert(payload_puts(publishes).drop_last() =~= payload_puts(rest));
        assert(payload_puts(publishes).last() == DiskOpView::PutPayloadIfAbsent {
            id: last.payload.id,
            bytes: last.payload.bytes,
        });
        assert(after == before.apply(payload_puts(publishes).last()));
        assert(payload_ids(publishes) =~= payload_ids(rest).push(last.payload.id));
        payload_ids(rest).lemma_push_to_set_commute(last.payload.id);
        assert(after.payloads.dom() =~= disk.payloads.dom().union(
            payload_ids(publishes).to_set(),
        ));
        assert forall|i: int|
            0 <= i < publishes.len() && !disk.payloads.contains_key(publishes[i].payload.id)
                && (forall|j: int|
                0 <= j < i ==> publishes[j].payload.id
                    != publishes[i].payload.id) implies after.payloads[#[trigger] publishes[i].payload.id]
            == publishes[i].payload.bytes by {
            if i < n {
                assert(rest[i] == publishes[i]);
                assert forall|j: int| 0 <= j < i implies rest[j].payload.id
                    != rest[i].payload.id by {
                    assert(rest[j] == publishes[j]);
                }
                assert(before.payloads.contains_key(publishes[i].payload.id)) by {
                    assert(payload_ids(rest)[i] == publishes[i].payload.id);
                    assert(payload_ids(rest).to_set().contains(publishes[i].payload.id));
                }
            } else {
                if before.payloads.contains_key(last.payload.id) {
                    assert(payload_ids(rest).to_set().contains(last.payload.id));
                    let j = choose|j: int|
                        0 <= j < payload_ids(rest).len() && payload_ids(rest)[j]
                            == last.payload.id;
                    assert(publishes[j].payload.id == publishes[i].payload.id);
                }
            }
        }
        assert forall|id: u64| disk.payloads.contains_key(id) implies #[trigger] after.payloads[id]
            == disk.payloads[id] by {
            assert(before.payloads[id] == disk.payloads[id]);
            assert(before.payloads.contains_key(id));
        }
    }
}

proof fn lemma_first_with_id(publishes: Seq<PublishView>, i: int) -> (first: int)
    requires
        0 <= i < publishes.len(),
    ensures
        0 <= first <= i,
        publishes[first].payload.id == publishes[i].payload.id,
        forall|j: int| 0 <= j < first ==> publishes[j].payload.id != publishes[i].payload.id,
    decreases i,
{
    if exists|j: int| 0 <= j < i && publishes[j].payload.id == publishes[i].payload.id {
        let j = choose|j: int| 0 <= j < i && publishes[j].payload.id == publishes[i].payload.id;
        lemma_first_with_id(publishes, j)
    } else {
        i
    }
}

/// Round trip through the atomic-batch store. A batch is written to a
/// session, and the session is read back once the batch is committed,
/// with a `fetch` that answers for the stored payloads. If an id names
/// one byte string, within the batch and between the batch and what is
/// stored, the read ends well and returns the batch. Whatever the
/// session held before is replaced.
pub proof fn law_atomic_round_trip<F: Fn(u64) -> Result<Vec<u8>, StorageError>>(
    disk: Disk,
    session: Seq<char>,
    publishes: Seq<PublishView>,
    fetch: F,
    outcome: Result<Seq<PublishView>, StorageError>,
)
    requires
        index_decoding(index_encoding(records_of(publishes))) == Some(records_of(publishes)),
        ids_name_bytes(publishes),
        forall|i: int|
            0 <= i < publishes.len() && disk.payloads.contains_key(
                #[trigger] publishes[i].payload.id,
            ) ==> disk.payloads[publishes[i].payload.id] == publishes[i].payload.bytes,
        fetches_from(fetch, disk.apply_all(batch_ops(session, publishes)).payloads),
        index_read(
            Some(disk.apply_all(batch_ops(session, publishes)).sessions[session]),
            fetch,
            outcome,
        ),
    ensures
        disk.apply_all(batch_ops(session, publishes)).sessions[session] == index_encoding(
            records_of(publishes),
        ),
        outcome == Ok::<Seq<PublishView>, StorageError>(publishes),
{
    let ops = batch_ops(session, publishes);
    let after = disk.apply_all(ops);
    law_batch_stores_payloads(disk, publishes);
    assert(ops.drop_last() =~= payload_puts(publishes));
    let stored = disk.apply_all(payload_puts(publishes));
    assert(after == stored.apply(ops.last()));
    assert(after.payloads == stored.payloads);
    let records = records_of(publishes);
    assert forall|i: int| 0 <= i < records.len() implies after.payloads.contains_key(
        records[i].payload_id,
    ) && after.payloads[records[i].payload_id] == publishes[i].payload.bytes by {
        let id = publishes[i].payload.id;
        assert(payload_ids(publishes)[i] == id);
        assert(payload_ids(publishes).to_set().contains(id));
        if !disk.payloads.contains_key(id) {
            let first = lemma_first_with_id(publishes, i);
            assert(after.payloads[publishes[first].payload.id] == publishes[first].payload.bytes);
        }
    }
    match outcome {
        Ok(result) => {
            assert forall|i: int| 0 <= i < result.len() implies result[i] == publishes[i] by {
                let id = records[i].payload_id;
                let loaded = choose|loaded: Vec<u8>|
                    loaded@ == result[i].payload.bytes && #[trigger] call_ensures(
                        fetch,
                        (records[i].payload_id,),
                        Ok::<Vec<u8>, StorageError>(loaded),
                    );
                assert(after.payloads[id] == loaded@);
                assert(publishes[i].payload == crate::record::PayloadView {
                    id: publishes[i].payload.id,
                    bytes: publishes[i].payload.bytes,
                });
            }
            assert(result =~= publishes);
        },
        Err(e) => {
            assert(fetch_fails(records, fetch, e));
            let i = choose|i: int|
                0 <= i < records.len() && #[trigger] call_ensures(
                    fetch,
                    (records[i].payload_id,),
                    Err::<Vec<u8>, StorageError>(e),
                );
            assert(after.payloads.contains_key(records[i].payload_id));
            assert(false);
        },
    }
}

/// The atomic-batch store keeps a payload once, and keeps the bytes that
/// came first. Writing a message to one session and then a message with
/// the same payload id to another stores the payload with the first write
/// only: the second write leaves the stored payloads as they are,
/// whatever bytes it brings. The payload holds the bytes of the first
/// message, unless the id was stored before.
pub proof fn law_atomic_payload_stored_once(
    disk: Disk,
    first_session: Seq<char>,
    second_session: Seq<char>,
    first: PublishView,
    second: PublishView,
)
    requires
        first.payload.id == second.payload.id,
    ensures
        ({
            let once = disk.apply_all(batch_ops(first_session, seq![first]));
            let twice = once.apply_all(batch_ops(second_session, seq![second]));
            &&& once.payloads.dom() == disk.payloads.dom().insert(first.payload.id)
            &&& twice.payloads == once.payloads
            &&& !disk.payloads.contains_key(first.payload.id) ==> twice.payloads[first.payload.id]
                == first.payload.bytes
        }),
{
    let once = disk.apply_all(batch_ops(first_session, seq![first]));
    let twice = once.apply_all(batch_ops(second_session, seq![second]));
    let first_ops = batch_ops(first_session, seq![first]);
    let second_ops = batch_ops(second_session, seq![second]);
    assert(first_ops.drop_last() =~= payload_puts(seq![first]));
    assert(second_ops.drop_last() =~= payload_puts(seq![second]));
    let first_puts = payload_puts(seq![first]);
    assert(first_puts.drop_last() =~= Seq::<DiskOpView>::empty());
    assert(disk.apply_all(first_puts.drop_last()) == disk);
    assert(disk.apply_all(first_puts) == disk.apply(first_puts.last()));
    let second_puts = payload_puts(seq![second]);
    assert(second_puts.drop_last() =~= Seq::<DiskOpView>::empty());
    assert(once.apply_all(second_puts.drop_last()) == once);
    assert(once.apply_all(second_puts) == once.apply(second_puts.last()));
    assert(once.payloads.dom() =~= disk.payloads.dom().insert(first.payload.id));
    assert(twice.payloads =~= once.payloads);
}

} // verus!
