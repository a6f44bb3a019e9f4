use payload_store::codec::{decode_batch, decode_index, encode_batch, encode_index, encoded};
use payload_store::error::StorageError;
use payload_store::layout::{entry_name, parse_entry_name};
use payload_store::record::{DiskPublish, Payload, Publish};
use std::sync::Arc;

fn record() -> DiskPublish {
    DiskPublish { packet_id: 102, retain: true, topic_name: "fake".to_owned(), payload_id: 1001 }
}

#[test]
fn record_is_encoded_field_by_field() {
    let bytes = record().encode().unwrap();
    assert_eq!(
        bytes,
        vec![102, 0, 1, 4, 0, 0, 0, 0, 0, 0, 0, 102, 97, 107, 101, 0xE9, 3, 0, 0, 0, 0, 0, 0]
    );
    assert_eq!(DiskPublish::decode(&bytes), Ok(record()));
}

#[test]
fn record_decoding_ignores_what_follows_and_rejects_what_is_cut() {
    let mut bytes = record().encode().unwrap();
    bytes.extend([9, 9, 9]);
    assert_eq!(DiskPublish::decode(&bytes), Ok(record()));
    assert_eq!(DiskPublish::decode(&bytes[..22]), Err(StorageError::Codec));
    assert_eq!(DiskPublish::decode(&[]), Err(StorageError::Codec));
    // a retain flag that is neither 0 nor 1
    bytes[2] = 2;
    assert_eq!(DiskPublish::decode(&bytes), Err(StorageError::Codec));
}

#[test]
fn record_keeps_any_topic() {
    let record = DiskPublish {
        packet_id: u16::MAX,
        retain: false,
        topic_name: "caf\u{e9}/\u{1F980}".to_owned(),
        payload_id: u64::MAX,
    };
    let bytes = record.encode().unwrap();
    assert_eq!(bytes.len(), 2 + 1 + 8 + 10 + 8);
    assert_eq!(DiskPublish::decode(&bytes), Ok(record));
}

#[test]
fn index_round_trip() {
    let records = vec![record(), DiskPublish { payload_id: 7, ..record() }];
    let bytes = encode_index(&records).unwrap();
    assert_eq!(bytes.len(), 8 + 2 * 23);
    assert_eq!(decode_index(&bytes), Ok(records));
    assert_eq!(encode_index(&vec![]).unwrap(), vec![0; 8]);
    assert_eq!(decode_index(&[0; 8]), Ok(vec![]));
    assert_eq!(decode_index(&[1, 0, 0, 0, 0, 0, 0, 0]), Err(StorageError::Codec));
}

#[test]
fn batch_round_trip() {
    let batch = vec![
        Publish {
            packet_id: 1,
            retain: true,
            topic_name: "a".to_owned(),
            payload: Payload { id: 1, bytes: Arc::new(vec![]) },
        },
        Publish {
            packet_id: 2,
            retain: false,
            topic_name: String::new(),
            payload: Payload { id: 2, bytes: Arc::new(vec![0, 255, 7]) },
        },
    ];
    let bytes = encode_batch(&batch).unwrap();
    assert_eq!(decode_batch(&bytes), Ok(batch));
    assert_eq!(decode_batch(&bytes[..bytes.len() - 1]), Err(StorageError::Codec));
}

#[test]
fn projection_to_disk_and_back() {
    let publish = Publish {
        packet_id: 102,
        retain: true,
        topic_name: "fake".to_owned(),
        payload: Payload { id: 1001, bytes: Arc::new(vec![1, 2, 3]) },
    };
    assert_eq!(publish.to_disk(), record());
    assert_eq!(record().into_publish(Arc::new(vec![1, 2, 3])), publish);
    let copy = publish.clone();
    assert!(Arc::ptr_eq(&copy.payload.bytes, &publish.payload.bytes));
}

#[test]
fn entry_names_are_decimal() {
    assert_eq!(entry_name(0), "0");
    assert_eq!(entry_name(9), "9");
    assert_eq!(entry_name(10), "10");
    assert_eq!(entry_name(1001), "1001");
    assert_eq!(entry_name(u64::MAX), "18446744073709551615");
}

#[test]
fn entry_names_parse_back() {
    for id in [0, 1, 9, 10, 99, 100, 1001, 12345678901234567890, u64::MAX] {
        assert_eq!(parse_entry_name(&entry_name(id)), Some(id));
    }
}

#[test]
fn entry_name_grammar() {
    assert_eq!(parse_entry_name("+5"), Some(5));
    assert_eq!(parse_entry_name("007"), Some(7));
    assert_eq!(parse_entry_name("18446744073709551615"), Some(u64::MAX));
    assert_eq!(parse_entry_name("18446744073709551616"), None);
    assert_eq!(parse_entry_name("99999999999999999999999"), None);
    assert_eq!(parse_entry_name(""), None);
    assert_eq!(parse_entry_name("+"), None);
    assert_eq!(parse_entry_name("-1"), None);
    assert_eq!(parse_entry_name("12a"), None);
    assert_eq!(parse_entry_name("1 "), None);
    assert_eq!(parse_entry_name("++1"), None);
    assert_eq!(parse_entry_name("\u{663}"), None);
}

#[test]
fn errors_describe_themselves() {
    assert_eq!(StorageError::NotFound.describe(), "not found");
    assert_eq!(StorageError::Io.describe(), "storage access failed");
    assert_eq!(StorageError::Codec.describe(), "malformed encoding");
}

#[test]
fn a_failure_of_the_encoder_is_a_codec_error() {
    assert_eq!(encoded(Ok(vec![1, 2])), Ok(vec![1, 2]));
    let failure: bincode::Error = Box::new(bincode::ErrorKind::SizeLimit);
    assert_eq!(encoded(Err(failure)), Err(StorageError::Codec));
}
