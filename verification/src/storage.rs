use crate::disk::DiskOp;
use crate::error::StorageError;
use crate::record::Publish;
use vstd::prelude::*;

verus! {

/// What every storage engine offers.
///
/// The engines differ in what a write means. The id-addressed store
/// appends to a session; the consolidated and the atomic-batch store
/// replace what the session held. Each engine states its own meaning in
/// the contracts of its implementation; this trait only fixes the shape.
pub trait Storage {
    /// What the medium holds for one session, as the engine needs it for a
    /// read.
    type Stored;

    /// Plans the write of a batch of messages to a session: the operations
    /// that the caller has to carry out on the medium, in order.
    fn write(&mut self, session_id: &str, publishes: &[Publish]) -> Result<
        Vec<DiskOp>,
        StorageError,
    >;

    /// The messages of a session, from what the medium holds for it. A
    /// session for which nothing is stored reads as empty. Payloads that
    /// are stored apart from the session are obtained through `fetch`.
    fn read<F: Fn(u64) -> Result<Vec<u8>, StorageError>>(
        &mut self,
        stored: Self::Stored,
        fetch: &F,
    ) -> Result<Vec<Publish>, StorageError>
        requires
            forall|id: u64| call_requires(*fetch, (id,)),
    ;
}

} // verus!
