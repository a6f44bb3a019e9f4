use crate::codec::index_decoding;
use std::sync::Arc;
use vstd::prelude::*;

verus! {

/// One change that a storage engine asks its medium to make.
///
/// The engines never touch the medium themselves: a write or a collection
/// returns the operations, in order, and the caller carries them out.
#[derive(Debug, PartialEq, Eq)]
pub enum DiskOp {
    /// Store `body` as the entry `key` of the session's message index,
    /// replacing an entry with that key.
    PutMessage { session: String, key: u64, body: Vec<u8> },
    /// Store `bytes` as the payload `id` unless a payload `id` is stored.
    PutPayloadIfAbsent { id: u64, bytes: Arc<Vec<u8>> },
    /// Remove the payload `id`.
    DeletePayload { id: u64 },
    /// Store `body` as all that the session holds, replacing what it held.
    PutSession { session: String, body: Vec<u8> },
}

/// Mathematical value of a [`DiskOp`].
pub enum DiskOpView {
    PutMessage { session: Seq<char>, key: u64, body: Seq<u8> },
    PutPayloadIfAbsent { id: u64, bytes: Seq<u8> },
    DeletePayload { id: u64 },
    PutSession { session: Seq<char>, body: Seq<u8> },
}

impl View for DiskOp {
    type V = DiskOpView;

    open spec fn view(&self) -> DiskOpView {
        match *self {
            DiskOp::PutMessage { session, key, body } => DiskOpView::PutMessage {
                session: session@,
                key,
                body: body@,
            },
            DiskOp::PutPayloadIfAbsent { id, bytes } => DiskOpView::PutPayloadIfAbsent {
                id,
                bytes: bytes@,
            },
            DiskOp::DeletePayload { id } => DiskOpView::DeletePayload { id },
            DiskOp::PutSession { session, body } => DiskOpView::PutSession {
                session: session@,
                body: body@,
            },
        }
    }
}

/// The values of a sequence of operations, in order.
pub open spec fn op_views(ops: Seq<DiskOp>) -> Seq<DiskOpView> {
    ops.map_values(|op: DiskOp| op@)
}

impl DiskOp {
    /// Whether the operations after this one are still to be carried out
    /// when this one fails on the medium.
    ///
    /// A failed deletion is reported and the sweep goes on, since deletions
    /// are independent of each other. A failed store ends the write.
    pub fn continue_after_failure(&self) -> (r: bool)
        ensures
            r == (self@ is DeletePayload),
    {
        match self {
            DiskOp::DeletePayload { .. } => true,
            _ => false,
        }
    }
}

/// Whether `index` is the stored index of a session that has a record
/// with the payload `id`.
pub open spec fn names_payload(index: Seq<u8>, id: u64) -> bool {
    index_decoding(index) is Some && exists|k: int|
        0 <= k < index_decoding(index)->0.len() && (#[trigger] index_decoding(
            index,
        )->0[k]).payload_id == id
}

/// What a medium holds.
///
/// The id-addressed store files each message under its session and a key
/// (`messages`); the overwrite stores keep one byte string per session
/// (`sessions`). Payloads are kept by id.
pub struct Disk {
    pub payloads: Map<u64, Seq<u8>>,
    pub messages: Map<Seq<char>, Map<u64, Seq<u8>>>,
    pub sessions: Map<Seq<char>, Seq<u8>>,
}

impl Disk {
    /// The message index of a session; empty for a session never written.
    pub open spec fn entries(self, session: Seq<char>) -> Map<u64, Seq<u8>> {
        if self.messages.contains_key(session) {
            self.messages[session]
        } else {
            Map::empty()
        }
    }

    /// The medium after one operation has been carried out.
    pub open spec fn apply(self, op: DiskOpView) -> Disk {
        match op {
            DiskOpView::PutMessage { session, key, body } => Disk {
                messages: self.messages.insert(session, self.entries(session).insert(key, body)),
                ..self
            },
            DiskOpView::PutPayloadIfAbsent { id, bytes } => if self.payloads.contains_key(id) {
                self
            } else {
                Disk { payloads: self.payloads.insert(id, bytes), ..self }
            },
            DiskOpView::DeletePayload { id } => Disk {
                payloads: self.payloads.remove(id),
                ..self
            },
            DiskOpView::PutSession { session, body } => Disk {
                sessions: self.sessions.insert(session, body),
                ..self
            },
        }
    }

    /// The medium after the operations have been carried out in order.
    pub open spec fn apply_all(self, ops: Seq<DiskOpView>) -> Disk
        decreases ops.len(),
    {
        if ops.len() == 0 {
            self
        } else {
            self.apply_all(ops.drop_last()).apply(ops.last())
        }
    }

    /// Whether some session's message index has an entry with this key.
    pub open spec fn references(self, id: u64) -> bool {
        exists|session: Seq<char>| #[trigger]
            self.messages.contains_key(session) && self.messages[session].contains_key(id)
    }

    /// The payload ids that the message indexes reference.
    pub open spec fn referenced(self) -> Set<u64> {
        Set::new(|id: u64| self.references(id))
    }

    /// The medium after a collection: the payloads that no message index
    /// references are gone, everything else is as before.
    pub open spec fn collected(self) -> Disk {
        Disk { payloads: self.payloads.restrict(self.referenced()), ..self }
    }

    /// Whether the stored index of some session of the atomic-batch store
    /// has a record with this payload id.
    pub open spec fn indexes(self, id: u64) -> bool {
        exists|session: Seq<char>| #[trigger]
            self.sessions.contains_key(session) && names_payload(self.sessions[session], id)
    }

    /// The payload ids that the stored indexes of the atomic-batch store
    /// name.
    pub open spec fn indexed(self) -> Set<u64> {
        Set::new(|id: u64| self.indexes(id))
    }
}

/// Carrying out one list of operations after another is carrying out
/// their concatenation.
pub proof fn lemma_apply_all_concat(disk: Disk, first: Seq<DiskOpView>, second: Seq<DiskOpView>)
    ensures
        disk.apply_all(first + second) == disk.apply_all(first).apply_all(second),
    decreases second.len(),
{
    if second.len() == 0 {
        assert(first + second =~= first);
    } else {
        lemma_apply_all_concat(disk, first, second.drop_last());
        assert((first + second).drop_last() =~= first + second.drop_last());
        assert((first + second).last() == second.last());
    }
}

} // verus!
