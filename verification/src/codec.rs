use crate::error::StorageError;
use crate::record::{
    disk_views, publish_views, DiskPublish, DiskPublishView, Payload, PayloadView, Publish,
    PublishView,
};
use std::sync::Arc;
use vstd::prelude::*;

verus! {

/// `bincode::ErrorKind`, the reason of a failure of bincode. Nothing is
/// read from it: every failure becomes [`StorageError::Codec`].
#[verifier::external_type_specification]
#[verifier::external_body]
pub struct ExErrorKind(bincode::ErrorKind);

/// The bytes that bincode writes for one persisted record.
pub uninterp spec fn record_encoding(record: DiskPublishView) -> Seq<u8>;

/// The persisted record that bincode reads from `bytes`, if it reads one.
pub uninterp spec fn record_decoding(bytes: Seq<u8>) -> Option<DiskPublishView>;

/// The bytes that bincode writes for a session's list of persisted records.
pub uninterp spec fn index_encoding(records: Seq<DiskPublishView>) -> Seq<u8>;

/// The list of persisted records that bincode reads from `bytes`, if it reads one.
pub uninterp spec fn index_decoding(bytes: Seq<u8>) -> Option<Seq<DiskPublishView>>;

/// The bytes that bincode writes for a batch of messages with their payloads inline.
pub uninterp spec fn batch_encoding(publishes: Seq<PublishView>) -> Seq<u8>;

/// The batch of messages that bincode reads from `bytes`, if it reads one.
pub uninterp spec fn batch_decoding(bytes: Seq<u8>) -> Option<Seq<PublishView>>;

/// A persisted record as the tuple of its fields, in declaration order.
pub type RecordFields = (u16, bool, String, u64);

/// A message with its payload inline as the tuple of its fields, in
/// declaration order; the payload is the pair of its bytes and its id.
pub type InlineFields = (u16, bool, String, (Vec<u8>, u64));

/// The record that a tuple of fields stands for.
pub open spec fn record_of(fields: RecordFields) -> DiskPublishView {
    DiskPublishView {
        packet_id: fields.0,
        retain: fields.1,
        topic_name: fields.2@,
        payload_id: fields.3,
    }
}

/// The message that a tuple of fields stands for.
pub open spec fn inline_of(fields: InlineFields) -> PublishView {
    PublishView {
        packet_id: fields.0,
        retain: fields.1,
        topic_name: fields.2@,
        payload: PayloadView { id: fields.3.1, bytes: fields.3.0@ },
    }
}

/// `bincode::serialize` on the fields of one record. It succeeds: it sets
/// no byte limit, every length is known, and its writer is a `Vec`. The
/// bytes are the encoding of the record, and bincode reads the same
/// record back from them.
#[verifier::external_body]
fn serialize_record(fields: &RecordFields) -> (r: Result<Vec<u8>, bincode::Error>)
    ensures
        r is Ok,
        r matches Ok(bytes) ==> bytes@ == record_encoding(record_of(*fields))
            && record_decoding(bytes@) == Some(record_of(*fields)),
{
    bincode::serialize(fields)
}

/// `bincode::deserialize` for one record: the call succeeds exactly when
/// the bytes decode, and then returns the decoded fields. Bytes after the
/// record are ignored by bincode.
#[verifier::external_body]
fn deserialize_record(bytes: &[u8]) -> (r: Result<RecordFields, bincode::Error>)
    ensures
        match r {
            Ok(fields) => record_decoding(bytes@) == Some(record_of(fields)),
            Err(_) => record_decoding(bytes@) is None,
        },
{
    bincode::deserialize(bytes)
}

/// `bincode::serialize` on a list of records. It succeeds, for the
/// reasons given for one record. The bytes are the encoding of the list,
/// and bincode reads the same list back.
#[verifier::external_body]
fn serialize_index(fields: &Vec<RecordFields>) -> (r: Result<Vec<u8>, bincode::Error>)
    ensures
        r is Ok,
        r matches Ok(bytes) ==> bytes@ == index_encoding(
            fields@.map_values(|f: RecordFields| record_of(f)),
        ) && index_decoding(bytes@) == Some(fields@.map_values(|f: RecordFields| record_of(f))),
{
    bincode::serialize(fields)
}

/// `bincode::deserialize` for a list of records: the call succeeds exactly
/// when the bytes decode, and then returns the decoded list.
#[verifier::external_body]
fn deserialize_index(bytes: &[u8]) -> (r: Result<Vec<RecordFields>, bincode::Error>)
    ensures
        match r {
            Ok(fields) => index_decoding(bytes@) == Some(
                fields@.map_values(|f: RecordFields| record_of(f)),
            ),
            Err(_) => index_decoding(bytes@) is None,
        },
{
    bincode::deserialize(bytes)
}

/// `bincode::serialize` on a batch of messages with inline payloads. It
/// succeeds, for the reasons given for one record. The bytes are the
/// encoding of the batch, and bincode reads the same batch back.
#[verifier::external_body]
fn serialize_batch(fields: &Vec<InlineFields>) -> (r: Result<Vec<u8>, bincode::Error>)
    ensures
        r is Ok,
        r matches Ok(bytes) ==> bytes@ == batch_encoding(
            fields@.map_values(|f: InlineFields| inline_of(f)),
        ) && batch_decoding(bytes@) == Some(fields@.map_values(|f: InlineFields| inline_of(f))),
{
    bincode::serialize(fields)
}

/// `bincode::deserialize` for a batch of messages with inline payloads: the
/// call succeeds exactly when the bytes decode, and then returns the batch.
#[verifier::external_body]
fn deserialize_batch(bytes: &[u8]) -> (r: Result<Vec<InlineFields>, bincode::Error>)
    ensures
        match r {
            Ok(fields) => batch_decoding(bytes@) == Some(
                fields@.map_values(|f: InlineFields| inline_of(f)),
            ),
            Err(_) => batch_decoding(bytes@) is None,
        },
{
    bincode::deserialize(bytes)
}

/// What an encoder hands on, given what bincode returned: the bytes, or
/// [`StorageError::Codec`].
pub fn encoded(outcome: Result<Vec<u8>, bincode::Error>) -> (r: Result<Vec<u8>, StorageError>)
    ensures
        match outcome {
            Ok(bytes) => r == Ok::<Vec<u8>, StorageError>(bytes),
            Err(_) => r == Err::<Vec<u8>, StorageError>(StorageError::Codec),
        },
{
    match outcome {
        Ok(bytes) => Ok(bytes),
        Err(_) => Err(StorageError::Codec),
    }
}

impl DiskPublish {
    /// Encodes the record for storage. Every record can be encoded: the
    /// bytes are `record_encoding` of the record and decode to it again.
    pub fn encode(&self) -> (r: Result<Vec<u8>, StorageError>)
        ensures
            r is Ok,
            r->Ok_0@ == record_encoding(self@),
            record_decoding(record_encoding(self@)) == Some(self@),
    {
        let fields: RecordFields = (
            self.packet_id,
            self.retain,
            self.topic_name.clone(),
            self.payload_id,
        );
        encoded(serialize_record(&fields))
    }

    /// Decodes a stored record. Succeeds exactly on the byte strings that
    /// `record_decoding` maps to a record; every other input is
    /// [`StorageError::Codec`].
    pub fn decode(bytes: &[u8]) -> (r: Result<DiskPublish, StorageError>)
        ensures
            match r {
                Ok(record) => record_decoding(bytes@) == Some(record@),
                Err(e) => e == StorageError::Codec && record_decoding(bytes@) is None,
            },
    {
        match deserialize_record(bytes) {
            Ok(fields) => Ok(
                DiskPublish {
                    packet_id: fields.0,
                    retain: fields.1,
                    topic_name: fields.2,
                    payload_id: fields.3,
                },
            ),
            Err(_) => Err(StorageError::Codec),
        }
    }
}

/// Encodes a batch of messages with their payload bytes inline. Every
/// batch can be encoded: the bytes are `batch_encoding` of the batch and
/// decode to it again.
pub fn encode_batch(publishes: &[Publish]) -> (r: Result<Vec<u8>, StorageError>)
    ensures
        r is Ok,
        r->Ok_0@ == batch_encoding(publish_views(publishes@)),
        batch_decoding(batch_encoding(publish_views(publishes@))) == Some(
            publish_views(publishes@),
        ),
{
    let mut fields: Vec<InlineFields> = Vec::new();
    let mut i: usize = 0;
    while i < publishes.len()
        invariant
            i <= publishes.len(),
            fields@.map_values(|f: InlineFields| inline_of(f)) == publish_views(publishes@).take(
                i as int,
            ),
        decreases publishes.len() - i,
    {
        let publish = &publishes[i];
        let bytes: Vec<u8> = (*publish.payload.bytes).clone();
        assert(bytes@ =~= publish.payload.bytes@);
        let ghost before = fields@.map_values(|f: InlineFields| inline_of(f));
        let entry: InlineFields = (
            publish.packet_id,
            publish.retain,
            publish.topic_name.clone(),
            (bytes, publish.payload.id),
        );
        assert(inline_of(entry) == publish@);
        fields.push(entry);
        assert(fields@.map_values(|f: InlineFields| inline_of(f)) =~= before.push(publish@));
        assert(publish_views(publishes@).take(i as int + 1) =~= publish_views(publishes@).take(
            i as int,
        ).push(publish@));
        i += 1;
    }
    assert(publish_views(publishes@).take(publishes.len() as int) =~= publish_views(publishes@));
    encoded(serialize_batch(&fields))
}

/// Decodes a batch of messages with inline payloads. Succeeds exactly on
/// the byte strings that `batch_decoding` maps to a batch; every other
/// input is [`StorageError::Codec`].
pub fn decode_batch(bytes: &[u8]) -> (r: Result<Vec<Publish>, StorageError>)
    ensures
        match r {
            Ok(publishes) => batch_decoding(bytes@) == Some(publish_views(publishes@)),
            Err(e) => e == StorageError::Codec && batch_decoding(bytes@) is None,
        },
{
    let mut fields = match deserialize_batch(bytes) {
        Ok(fields) => fields,
        Err(_) => {
            return Err(StorageError::Codec);
        },
    };
    let ghost decoded = fields@.map_values(|f: InlineFields| inline_of(f));
    let mut reversed: Vec<Publish> = Vec::new();
    while fields.len() > 0
        invariant
            fields@.len() + reversed@.len() == decoded.len(),
            fields@.map_values(|f: InlineFields| inline_of(f)) == decoded.take(
                fields@.len() as int,
            ),
            forall|j: int|
                0 <= j < reversed@.len() ==> (#[trigger] reversed@[j])@ == decoded[decoded.len()
                    - 1 - j],
        decreases fields.len(),
    {
        let ghost before = fields@.map_values(|f: InlineFields| inline_of(f));
        let entry = fields.pop().unwrap();
        assert(inline_of(entry) == before[before.len() - 1]);
        assert(fields@.map_values(|f: InlineFields| inline_of(f)) =~= decoded.take(
            fields@.len() as int,
        ));
        let (packet_id, retain, topic_name, payload) = entry;
        let (bytes, id) = payload;
        reversed.push(
            Publish { packet_id, retain, topic_name, payload: Payload { id, bytes: Arc::new(bytes) } },
        );
    }
    let mut publishes: Vec<Publish> = Vec::new();
    while reversed.len() > 0
        invariant
            publishes@.len() + reversed@.len() == decoded.len(),
            forall|j: int|
                0 <= j < reversed@.len() ==> (#[trigger] reversed@[j])@ == decoded[decoded.len()
                    - 1 - j],
            forall|j: int| 0 <= j < publishes@.len() ==> (#[trigger] publishes@[j])@ == decoded[j],
        decreases reversed.len(),
    {
        let publish = reversed.pop().unwrap();
        publishes.push(publish);
    }
    assert(publish_views(publishes@) =~= decoded);
    Ok(publishes)
}

/// Encodes the list of a session's persisted records. Every list can be
/// encoded: the bytes are `index_encoding` of the list and decode to it
/// again.
pub fn encode_index(records: &Vec<DiskPublish>) -> (r: Result<Vec<u8>, StorageError>)
    ensures
        r is Ok,
        r->Ok_0@ == index_encoding(disk_views(records@)),
        index_decoding(index_encoding(disk_views(records@))) == Some(disk_views(records@)),
{
    let mut fields: Vec<RecordFields> = Vec::new();
    let mut i: usize = 0;
    while i < records.len()
        invariant
            i <= records.len(),
            fields@.map_values(|f: RecordFields| record_of(f)) == disk_views(records@).take(
                i as int,
            ),
        decreases records.len() - i,
    {
        let record = &records[i];
        let ghost before = fields@.map_values(|f: RecordFields| record_of(f));
        let entry: RecordFields = (
            record.packet_id,
            record.retain,
            record.topic_name.clone(),
            record.payload_id,
        );
        assert(record_of(entry) == record@);
        fields.push(entry);
        assert(fields@.map_values(|f: RecordFields| record_of(f)) =~= before.push(record@));
        assert(disk_views(records@).take(i as int + 1) =~= disk_views(records@).take(
            i as int,
        ).push(record@));
        i += 1;
    }
    assert(disk_views(records@).take(records.len() as int) =~= disk_views(records@));
    encoded(serialize_index(&fields))
}

/// Decodes the list of a session's persisted records. Succeeds exactly on
/// the byte strings that `index_decoding` maps to a list; every other
/// input is [`StorageError::Codec`].
pub fn decode_index(bytes: &[u8]) -> (r: Result<Vec<DiskPublish>, StorageError>)
    ensures
        match r {
            Ok(records) => index_decoding(bytes@) == Some(disk_views(records@)),
            Err(e) => e == StorageError::Codec && index_decoding(bytes@) is None,
        },
{
    let mut fields = match deserialize_index(bytes) {
        Ok(fields) => fields,
        Err(_) => {
            return Err(StorageError::Codec);
        },
    };
    let ghost decoded = fields@.map_values(|f: RecordFields| record_of(f));
    let mut reversed: Vec<DiskPublish> = Vec::new();
    while fields.len() > 0
        invariant
            fields@.len() + reversed@.len() == decoded.len(),
            fields@.map_values(|f: RecordFields| record_of(f)) == decoded.take(
                fields@.len() as int,
            ),
            forall|j: int|
                0 <= j < reversed@.len() ==> (#[trigger] reversed@[j])@ == decoded[decoded.len()
                    - 1 - j],
        decreases fields.len(),
    {
        let ghost before = fields@.map_values(|f: RecordFields| record_of(f));
        let entry = fields.pop().unwrap();
        assert(record_of(entry) == before[before.len() - 1]);
        assert(fields@.map_values(|f: RecordFields| record_of(f)) =~= decoded.take(
            fields@.len() as int,
        ));
        let (packet_id, retain, topic_name, payload_id) = entry;
        reversed.push(DiskPublish { packet_id, retain, topic_name, payload_id });
    }
    let mut records: Vec<DiskPublish> = Vec::new();
    while reversed.len() > 0
        invariant
            records@.len() + reversed@.len() == decoded.len(),
            forall|j: int|
                0 <= j < reversed@.len() ==> (#[trigger] reversed@[j])@ == decoded[decoded.len()
                    - 1 - j],
            forall|j: int| 0 <= j < records@.len() ==> (#[trigger] records@[j])@ == decoded[j],
        decreases reversed.len(),
    {
        let record = reversed.pop().unwrap();
        records.push(record);
    }
    assert(disk_views(records@) =~= decoded);
    Ok(records)
}

} // verus!
