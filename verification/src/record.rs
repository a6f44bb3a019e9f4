use std::sync::Arc;
use vstd::prelude::*;

verus! {

/// A binary blob that any number of messages may reference by `id`.
///
/// The bytes are shared: cloning a payload clones the handle, not the bytes.
#[derive(Debug, PartialEq, Eq)]
pub struct Payload {
    pub bytes: Arc<Vec<u8>>,
    pub id: u64,
}

/// One retained message of a session.
#[derive(Debug, PartialEq, Eq)]
pub struct Publish {
    pub packet_id: u16,
    pub retain: bool,
    pub topic_name: String,
    pub payload: Payload,
}

/// What is persisted of a message: everything but the payload bytes, which
/// are referenced by id.
#[derive(Debug, PartialEq, Eq)]
pub struct DiskPublish {
    pub packet_id: u16,
    pub retain: bool,
    pub topic_name: String,
    pub payload_id: u64,
}

/// Mathematical value of a [`Payload`].
pub struct PayloadView {
    pub id: u64,
    pub bytes: Seq<u8>,
}

/// Mathematical value of a [`Publish`].
pub struct PublishView {
    pub packet_id: u16,
    pub retain: bool,
    pub topic_name: Seq<char>,
    pub payload: PayloadView,
}

/// Mathematical value of a [`DiskPublish`].
pub struct DiskPublishView {
    pub packet_id: u16,
    pub retain: bool,
    pub topic_name: Seq<char>,
    pub payload_id: u64,
}

impl View for Payload {
    type V = PayloadView;

    open spec fn view(&self) -> PayloadView {
        PayloadView { id: self.id, bytes: self.bytes@ }
    }
}

impl View for Publish {
    type V = PublishView;

    open spec fn view(&self) -> PublishView {
        PublishView {
            packet_id: self.packet_id,
            retain: self.retain,
            topic_name: self.topic_name@,
            payload: self.payload@,
        }
    }
}

impl View for DiskPublish {
    type V = DiskPublishView;

    open spec fn view(&self) -> DiskPublishView {
        DiskPublishView {
            packet_id: self.packet_id,
            retain: self.retain,
            topic_name: self.topic_name@,
            payload_id: self.payload_id,
        }
    }
}

impl PublishView {
    /// The persisted projection of a message: its payload is reduced to the id.
    pub open spec fn on_disk(self) -> DiskPublishView {
        DiskPublishView {
            packet_id: self.packet_id,
            retain: self.retain,
            topic_name: self.topic_name,
            payload_id: self.payload.id,
        }
    }
}

impl DiskPublishView {
    /// The message that this record stands for once its payload bytes are known.
    pub open spec fn with_bytes(self, bytes: Seq<u8>) -> PublishView {
        PublishView {
            packet_id: self.packet_id,
            retain: self.retain,
            topic_name: self.topic_name,
            payload: PayloadView { id: self.payload_id, bytes },
        }
    }
}

/// The values of a sequence of messages, in order.
pub open spec fn publish_views(publishes: Seq<Publish>) -> Seq<PublishView> {
    publishes.map_values(|p: Publish| p@)
}

/// The values of a sequence of persisted records, in order.
pub open spec fn disk_views(records: Seq<DiskPublish>) -> Seq<DiskPublishView> {
    records.map_values(|d: DiskPublish| d@)
}

impl Clone for Payload {
    /// A second handle on the same bytes.
    fn clone(&self) -> (r: Self)
        ensures
            r@ == self@,
    {
        Payload { id: self.id, bytes: self.bytes.clone() }
    }
}

impl Clone for Publish {
    fn clone(&self) -> (r: Self)
        ensures
            r@ == self@,
    {
        Publish {
            packet_id: self.packet_id,
            retain: self.retain,
            topic_name: self.topic_name.clone(),
            payload: self.payload.clone(),
        }
    }
}

impl Clone for DiskPublish {
    fn clone(&self) -> (r: Self)
        ensures
            r@ == self@,
    {
        DiskPublish {
            packet_id: self.packet_id,
            retain: self.retain,
            topic_name: self.topic_name.clone(),
            payload_id: self.payload_id,
        }
    }
}

impl Publish {
    /// The record persisted for this message.
    pub fn to_disk(&self) -> (d: DiskPublish)
        ensures
            d@ == self@.on_disk(),
    {
        DiskPublish {
            packet_id: self.packet_id,
            retain: self.retain,
            topic_name: self.topic_name.clone(),
            payload_id: self.payload.id,
        }
    }
}

impl DiskPublish {
    /// The message that this record stands for, given its payload.
    pub fn into_publish(self, bytes: Arc<Vec<u8>>) -> (p: Publish)
        ensures
            p@ == self@.with_bytes(bytes@),
    {
        Publish {
            packet_id: self.packet_id,
            retain: self.retain,
            topic_name: self.topic_name,
            payload: Payload { id: self.payload_id, bytes },
        }
    }
}

} // verus!
