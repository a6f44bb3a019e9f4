//! The sweep of a mark-and-sweep collection, shared by the stores that
//! keep payloads apart from the sessions.

use crate::disk::{op_views, DiskOp, DiskOpView};
use std::collections::HashSet;
use vstd::prelude::*;
use vstd::std_specs::hash::*;

verus! {

/// The deletion of the payload `id`.
pub open spec fn deletion(id: u64) -> DiskOpView {
    DiskOpView::DeletePayload { id }
}

/// The ids that the deletions among `ops` remove.
pub open spec fn deleted_ids(ops: Seq<DiskOpView>) -> Set<u64> {
    Set::new(|id: u64| ops.contains(deletion(id)))
}

/// Whether `ops` is a sweep of what is stored and not referenced: one
/// deletion for each such id, and nothing else.
pub open spec fn is_sweep(ops: Seq<DiskOpView>, stored: Set<u64>, referenced: Set<u64>) -> bool {
    &&& forall|i: int| 0 <= i < ops.len() ==> #[trigger] ops[i] is DeletePayload
    &&& ops.no_duplicates()
    &&& forall|id: u64|
        #[trigger] ops.contains(deletion(id)) <==> (stored.contains(id) && !referenced.contains(
            id,
        ))
}

/// What one more operation adds to the ids that a list of operations
/// deletes.
pub proof fn lemma_deleted_ids_push(ops: Seq<DiskOpView>, op: DiskOpView)
    ensures
        deleted_ids(ops.push(op)) == (if op is DeletePayload {
            deleted_ids(ops).insert(op->DeletePayload_id)
        } else {
            deleted_ids(ops)
        }),
{
    let more = ops.push(op);
    assert forall|id: u64| more.contains(deletion(id)) <==> (ops.contains(deletion(id)) || op
        == deletion(id)) by {
        if more.contains(deletion(id)) {
            let j = choose|j: int| 0 <= j < more.len() && more[j] == deletion(id);
            if j < ops.len() {
                assert(ops[j] == deletion(id));
            }
        }
        if ops.contains(deletion(id)) {
            let j = choose|j: int| 0 <= j < ops.len() && ops[j] == deletion(id);
            assert(more[j] == deletion(id));
        }
        if op == deletion(id) {
            assert(more[ops.len() as int] == deletion(id));
        }
    }
    if op is DeletePayload {
        assert(op == deletion(op->DeletePayload_id));
        assert(deleted_ids(more) =~= deleted_ids(ops).insert(op->DeletePayload_id));
    } else {
        assert(deleted_ids(more) =~= deleted_ids(ops));
    }
}

/// The deletions that a collection asks for: one for each id that is
/// stored and not referenced, in the order in which `stored` first names
/// it.
pub fn sweep(stored: &Vec<u64>, referenced: &HashSet<u64>) -> (ops: Vec<DiskOp>)
    ensures
        is_sweep(op_views(ops@), stored@.to_set(), referenced@),
{
    broadcast use group_hash_axioms;

    let mut ops: Vec<DiskOp> = Vec::new();
    let mut swept: HashSet<u64> = HashSet::new();
    let mut i: usize = 0;
    while i < stored.len()
        invariant
            i <= stored.len(),
            swept@ == stored@.take(i as int).to_set().difference(referenced@),
            forall|j: int| 0 <= j < ops@.len() ==> #[trigger] op_views(ops@)[j] is DeletePayload,
            op_views(ops@).no_duplicates(),
            forall|id: u64| #[trigger] op_views(ops@).contains(deletion(id)) <==> swept@.contains(id),
        decreases stored.len() - i,
    {
        let id: u64 = stored[i];
        let ghost before = op_views(ops@);
        proof {
            stored@.take(i as int).lemma_push_to_set_commute(id);
            assert(stored@.take(i as int + 1) =~= stored@.take(i as int).push(id));
        }
        if !referenced.contains(&id) && !swept.contains(&id) {
            ops.push(DiskOp::DeletePayload { id });
            swept.insert(id);
            proof {
                assert(op_views(ops@) =~= before.push(deletion(id)));
                assert(!before.contains(deletion(id)));
                assert(op_views(ops@).no_duplicates()) by {
                    assert forall|a: int, b: int|
                        0 <= a < op_views(ops@).len() && 0 <= b < op_views(ops@).len() && a
                            != b implies op_views(ops@)[a] != op_views(ops@)[b] by {
                        if a < before.len() && b < before.len() {
                            assert(before[a] != before[b]);
                        } else if a < before.len() {
                            assert(before.contains(before[a]));
                        } else {
                            assert(before.contains(before[b]));
                        }
                    }
                }
                assert forall|other: u64| #[trigger]
                    op_views(ops@).contains(deletion(other)) <==> swept@.contains(other) by {
                    lemma_deleted_ids_push(before, deletion(id));
                    assert(deleted_ids(before.push(deletion(id))).contains(other) <==> deleted_ids(
                        before,
                    ).insert(id).contains(other));
                }
                assert(swept@ =~= stored@.take(i as int + 1).to_set().difference(referenced@));
            }
        } else {
            assert(swept@ =~= stored@.take(i as int + 1).to_set().difference(referenced@));
        }
        i += 1;
    }
    assert(stored@.take(stored.len() as int) =~= stored@);
    ops
}

} // verus!
