use payload_store::atomic;
use payload_store::codec::encode_index;
use payload_store::collector::sweep;
use payload_store::consolidated::{DedupKey, DB};
use payload_store::disk::DiskOp;
use payload_store::error::StorageError;
use payload_store::gc::GCStorage;
use payload_store::layout::{
    batch_path, message_path, messages_path, op_path, payload_path, payloads_path, session_path,
    sessions_path,
};
use payload_store::record::{Payload, Publish};
use payload_store::storage::Storage;
use std::cell::Cell;
use std::collections::{BTreeMap, HashSet};
use std::sync::Arc;

/// A medium in memory: a tree of entries by path.
struct Medium {
    files: BTreeMap<Vec<String>, Vec<u8>>,
    fetches: Cell<usize>,
}

impl Medium {
    fn new() -> Self {
        Medium { files: BTreeMap::new(), fetches: Cell::new(0) }
    }

    /// Carries the operations out, as a caller of the engines has to.
    /// Returns the ids of the payloads that were removed, and the failures.
    fn carry_out(&mut self, ops: &[DiskOp]) -> (Vec<u64>, Vec<(Vec<String>, StorageError)>) {
        let mut removed = Vec::new();
        let mut failures = Vec::new();
        for op in ops {
            let path = op_path(op);
            let outcome = match op {
                DiskOp::PutMessage { body, .. } => {
                    self.files.insert(path.clone(), body.clone());
                    Ok(())
                }
                DiskOp::PutPayloadIfAbsent { bytes, .. } => {
                    if !self.files.contains_key(&path) {
                        self.files.insert(path.clone(), bytes.to_vec());
                    }
                    Ok(())
                }
                DiskOp::DeletePayload { id } => match self.files.remove(&path) {
                    Some(_) => {
                        removed.push(*id);
                        Ok(())
                    }
                    None => Err(StorageError::NotFound),
                },
                DiskOp::PutSession { body, .. } => {
                    self.files.insert(path.clone(), body.clone());
                    Ok(())
                }
            };
            if let Err(e) = outcome {
                failures.push((path, e));
                if !op.continue_after_failure() {
                    break;
                }
            }
        }
        (removed, failures)
    }

    fn perform(&mut self, ops: &[DiskOp]) -> Vec<(Vec<String>, StorageError)> {
        self.carry_out(ops).1
    }

    fn children(&self, dir: &[String]) -> Vec<String> {
        let mut names: Vec<String> = Vec::new();
        for path in self.files.keys() {
            if path.len() > dir.len() && path[..dir.len()] == *dir {
                let name = path[dir.len()].clone();
                if !names.contains(&name) {
                    names.push(name);
                }
            }
        }
        names
    }

    /// What the medium lists for a session of the id-addressed store.
    fn listing(&self, session: &str) -> Option<Vec<Option<Vec<u8>>>> {
        if self.children(&session_path(session)).is_empty() {
            return None;
        }
        let dir = messages_path(session);
        let mut entries = Vec::new();
        for name in self.children(&dir) {
            let mut path = dir.clone();
            path.push(name);
            entries.push(self.files.get(&path).cloned());
        }
        Some(entries)
    }

    fn payload(&self, id: u64) -> Result<Vec<u8>, StorageError> {
        self.fetches.set(self.fetches.get() + 1);
        self.files.get(&payload_path(id)).cloned().ok_or(StorageError::NotFound)
    }

    fn session_names(&self) -> Vec<Vec<String>> {
        let mut all = Vec::new();
        for session in self.children(&sessions_path()) {
            all.push(self.children(&messages_path(&session)));
        }
        all
    }
}

fn gc_write(db: &mut GCStorage, medium: &mut Medium, session: &str, publishes: &[Publish]) {
    let ops = db.write(session, publishes).expect("plan");
    assert!(medium.perform(&ops).is_empty());
}

fn gc_read(db: &mut GCStorage, medium: &Medium, session: &str) -> Vec<Publish> {
    gc_try_read(db, medium, session).expect("read")
}

fn gc_try_read(
    db: &mut GCStorage,
    medium: &Medium,
    session: &str,
) -> Result<Vec<Publish>, StorageError> {
    db.read(medium.listing(session), &|id| medium.payload(id))
}

fn gc_delete(db: &mut GCStorage, medium: &mut Medium, ops: &[DiskOp]) -> Vec<(Vec<String>, StorageError)> {
    let (removed, failures) = medium.carry_out(ops);
    for id in removed {
        db.deleted(id);
    }
    failures
}

fn gc_clean(db: &mut GCStorage, medium: &mut Medium) -> Vec<(Vec<String>, StorageError)> {
    let stored = medium.children(&payloads_path());
    let sessions = medium.session_names();
    let ops = db.clean(&stored, &sessions).expect("Clean");
    gc_delete(db, medium, &ops)
}

struct Faker {
    packet_id: u16,
    payload_id: u64,
}

impl Faker {
    fn new() -> Self {
        Faker { packet_id: 100, payload_id: 1000 }
    }

    fn make_fake_publish(&mut self, payload: Vec<u8>) -> Publish {
        self.packet_id += 2;
        self.payload_id += 1;

        Publish {
            packet_id: self.packet_id,
            payload: Payload { id: self.payload_id, bytes: Arc::new(payload) },
            retain: true,
            topic_name: "fake".to_owned(),
        }
    }
}

#[test]
fn test_clean() {
    let mut medium = Medium::new();
    let mut db = GCStorage::new("root");
    let mut faker = Faker::new();

    let publish = faker.make_fake_publish(vec![1, 2, 3, 4, 5]);
    gc_write(&mut db, &mut medium, "Session 1", &[publish.clone()]);

    let stored = gc_read(&mut db, &medium, "Session 1");
    assert_eq!(stored.len(), 1);
    assert_eq!(stored[0].topic_name, "fake");
    assert_eq!(stored[0].payload.bytes, Arc::new(vec![1, 2, 3, 4, 5]));

    // the payload is still referenced, the collector leaves it alone
    assert!(gc_clean(&mut db, &mut medium).is_empty());
    let stored = gc_read(&mut db, &medium, "Session 1");
    assert_eq!(stored.len(), 1);
    assert_eq!(stored[0].topic_name, "fake");
    assert_eq!(stored[0].payload.bytes, Arc::new(vec![1, 2, 3, 4, 5]));

    medium.files.remove(&message_path("Session 1", publish.payload.id)).unwrap();

    // the payload is referenced no more, the collector deletes it
    assert!(gc_clean(&mut db, &mut medium).is_empty());
    let stored = gc_read(&mut db, &medium, "Session 1");
    assert_eq!(stored.len(), 0);
    assert!(!medium.files.contains_key(&payload_path(publish.payload.id)));
}

#[test]
fn lib_test_read_write() {
    let mut medium = Medium::new();
    let mut db = GCStorage::new("root");
    let mut faker = Faker::new();

    gc_write(&mut db, &mut medium, "Session 1", &[faker.make_fake_publish(vec![1, 2, 3, 4, 5])]);

    let stored = gc_read(&mut db, &medium, "Session 1");
    assert_eq!(stored.len(), 1);
    assert_eq!(stored[0].topic_name, "fake");
    assert_eq!(stored[0].payload.bytes, Arc::new(vec![1, 2, 3, 4, 5]));
}

#[test]
fn test_read_write_multiple() {
    let mut medium = Medium::new();
    let mut db = GCStorage::new("root");
    let mut faker = Faker::new();

    gc_write(&mut db, &mut medium, "Session 1", &[faker.make_fake_publish(vec![1, 2, 3])]);
    gc_write(&mut db, &mut medium, "Session 1", &[faker.make_fake_publish(vec![4, 5, 6])]);

    let stored = gc_read(&mut db, &medium, "Session 1");
    assert_eq!(stored.len(), 2);
    assert!(stored.iter().any(|p| p.payload.bytes == Arc::new(vec![1, 2, 3])));
    assert!(stored.iter().any(|p| p.payload.bytes == Arc::new(vec![4, 5, 6])));
}

#[test]
fn test_shared_payload() {
    let mut medium = Medium::new();
    let mut db = GCStorage::new("root");
    let mut faker = Faker::new();

    let publish = faker.make_fake_publish(vec![1, 2, 3, 4, 5]);
    gc_write(&mut db, &mut medium, "Session 1", &[publish.clone()]);
    gc_write(&mut db, &mut medium, "Session 2", &[publish]);

    let stored = gc_read(&mut db, &medium, "Session 1");
    assert_eq!(stored.len(), 1);
    assert_eq!(stored[0].topic_name, "fake");
    assert_eq!(stored[0].payload.bytes, Arc::new(vec![1, 2, 3, 4, 5]));

    let stored = gc_read(&mut db, &medium, "Session 2");
    assert_eq!(stored.len(), 1);
    assert_eq!(stored[0].topic_name, "fake");
    assert_eq!(stored[0].payload.bytes, Arc::new(vec![1, 2, 3, 4, 5]));
}

#[test]
fn test_shared_payload_in_memory() {
    let mut medium = Medium::new();
    let mut db = GCStorage::new("root");
    let mut faker = Faker::new();

    let publish = faker.make_fake_publish(vec![1, 2, 3, 4, 5]);
    gc_write(&mut db, &mut medium, "Session 1", &[publish.clone()]);
    gc_write(&mut db, &mut medium, "Session 2", &[publish.clone()]);

    let first = gc_read(&mut db, &medium, "Session 1");
    assert_eq!(first.len(), 1);
    assert_eq!(first[0].topic_name, "fake");
    assert_eq!(first[0].payload.bytes, Arc::new(vec![1, 2, 3, 4, 5]));

    // With the payload gone from the medium, only the cache can serve it.
    medium.files.remove(&payload_path(publish.payload.id)).unwrap();

    let stored = gc_read(&mut db, &medium, "Session 2");
    assert_eq!(stored.len(), 1);
    assert_eq!(stored[0].topic_name, "fake");
    assert_eq!(stored[0].payload.bytes, Arc::new(vec![1, 2, 3, 4, 5]));
}

#[test]
fn test_add_remove_payload() {
    let mut medium = Medium::new();
    let mut db = GCStorage::new("root");
    let mut faker = Faker::new();

    let publish = faker.make_fake_publish(vec![1, 2, 3, 4, 5]);
    gc_write(&mut db, &mut medium, "Session 1", &[publish.clone()]);

    let stored = gc_try_read(&mut db, &medium, "Session 1").expect("Get Payload");
    assert_eq!(stored.len(), 1);
    assert_eq!(stored[0].topic_name, "fake");
    assert_eq!(stored[0].payload.bytes, Arc::new(vec![1, 2, 3, 4, 5]));

    let op = db.delete_payload(publish.payload.id);
    assert_eq!(op, DiskOp::DeletePayload { id: publish.payload.id });
    assert!(gc_delete(&mut db, &mut medium, &[op]).is_empty());

    // the session still references the payload, which is gone: the read fails
    let again = gc_try_read(&mut db, &medium, "Session 1");
    assert_eq!(again, Err(StorageError::NotFound));
}

#[test]
fn test_get_session_payload_ids() {
    let mut medium = Medium::new();
    let mut db = GCStorage::new("root");
    let mut faker = Faker::new();

    let publish = faker.make_fake_publish(vec![1, 2, 3, 4, 5]);
    gc_write(&mut db, &mut medium, "Session 1", &[publish.clone()]);

    let names = medium.children(&messages_path("Session 1"));
    assert_eq!(GCStorage::get_payload_ids(&names).unwrap(), vec![publish.payload.id])
}

#[test]
fn test_get_payload_ids() {
    let mut medium = Medium::new();
    let mut db = GCStorage::new("root");
    let mut faker = Faker::new();

    let publish = faker.make_fake_publish(vec![1, 2, 3, 4, 5]);
    gc_write(&mut db, &mut medium, "Session 1", &[publish.clone()]);

    let names = medium.children(&payloads_path());
    assert_eq!(GCStorage::get_payload_ids(&names).unwrap(), vec![publish.payload.id])
}

fn db_write(db: &mut DB, medium: &mut Medium, session: &str, publishes: &[Publish]) {
    let ops = db.write(session, publishes).expect("plan");
    assert!(medium.perform(&ops).is_empty());
}

fn db_read(db: &mut DB, medium: &Medium, session: &str) -> Result<Vec<Publish>, StorageError> {
    let stored = medium.files.get(&batch_path(session)).cloned();
    db.read(stored, &|_id| -> Result<Vec<u8>, StorageError> { panic!("nothing to fetch") })
}

#[test]
fn consolidated_test_read_write() {
    let mut medium = Medium::new();
    let mut db = DB::new("root");
    let mut faker = Faker::new();

    let publish = faker.make_fake_publish(vec![1, 2, 3, 4, 5]);
    db_write(&mut db, &mut medium, "Session 1", &[publish]);

    let stored = db_read(&mut db, &medium, "Session 1").unwrap();
    assert_eq!(stored.len(), 1);
    assert_eq!(stored[0].topic_name, "fake");
    assert_eq!(stored[0].payload.bytes, Arc::new(vec![1, 2, 3, 4, 5]));
}

#[test]
fn test_dedupe() {
    let mut medium = Medium::new();
    let mut db = DB::new("root");
    let mut faker = Faker::new();

    let publish = faker.make_fake_publish(vec![1, 2, 3, 4, 5]);
    db_write(&mut db, &mut medium, "Session 1", &[publish.clone()]);
    db_write(&mut db, &mut medium, "Session 2", &[publish]);

    db_read(&mut db, &medium, "Session 1").unwrap();
    db_read(&mut db, &medium, "Session 2").unwrap();

    assert_eq!(db.cached_len(), 1);
}

fn atomic_read(
    db: &mut atomic::GCStorage,
    medium: &Medium,
    session: &str,
) -> Result<Vec<Publish>, StorageError> {
    let stored = medium.files.get(&batch_path(session)).cloned();
    db.read(stored, &|id| medium.payload(id))
}

#[test]
fn atomic_test_read_write() {
    let mut medium = Medium::new();
    let mut db = atomic::GCStorage::new("root");
    let mut faker = Faker::new();

    let publish = faker.make_fake_publish(vec![1, 2, 3, 4, 5]);
    let ops = db.write("Session 1", &[publish]).expect("Publish 1");
    assert!(medium.perform(&ops).is_empty());

    let stored = atomic_read(&mut db, &medium, "Session 1").unwrap();
    assert_eq!(stored.len(), 1);
    assert_eq!(stored[0].topic_name, "fake");
    assert_eq!(stored[0].payload.bytes, Arc::new(vec![1, 2, 3, 4, 5]));
}

#[test]
fn scenario_external_removal_of_a_message_entry() {
    let mut medium = Medium::new();
    let mut db = GCStorage::new("root");
    let publish = Publish {
        packet_id: 102,
        retain: true,
        topic_name: "fake".to_owned(),
        payload: Payload { id: 1001, bytes: Arc::new(vec![1, 2, 3, 4, 5]) },
    };
    gc_write(&mut db, &mut medium, "A", &[publish.clone()]);

    let stored = gc_read(&mut db, &medium, "A");
    assert_eq!(stored, vec![publish]);

    medium.files.remove(&message_path("A", 1001)).unwrap();
    assert_eq!(gc_read(&mut db, &medium, "A"), vec![]);
    // the index entry is gone, not the payload
    assert!(medium.files.contains_key(&payload_path(1001)));
}

#[test]
fn scenario_collector_keeps_a_payload_that_one_session_still_references() {
    let mut medium = Medium::new();
    let mut db = GCStorage::new("root");
    let publish = Publish {
        packet_id: 7,
        retain: false,
        topic_name: "t".to_owned(),
        payload: Payload { id: 2000, bytes: Arc::new(vec![9, 8, 7]) },
    };
    gc_write(&mut db, &mut medium, "S1", &[publish.clone()]);
    gc_write(&mut db, &mut medium, "S2", &[publish.clone()]);
    // one stored payload for both sessions
    assert_eq!(medium.children(&payloads_path()), vec!["2000"]);

    medium.files.remove(&message_path("S1", 2000)).unwrap();
    assert!(gc_clean(&mut db, &mut medium).is_empty());

    assert_eq!(medium.files.get(&payload_path(2000)), Some(&vec![9u8, 8, 7]));
    assert_eq!(gc_read(&mut db, &medium, "S2"), vec![publish]);
}

#[test]
fn append_round_trip_over_two_writes() {
    let mut medium = Medium::new();
    let mut db = GCStorage::new("root");
    let mut faker = Faker::new();
    let first = vec![faker.make_fake_publish(vec![1]), faker.make_fake_publish(vec![2, 2])];
    let second = vec![faker.make_fake_publish(vec![]), faker.make_fake_publish(vec![4; 300])];
    gc_write(&mut db, &mut medium, "s", &first);
    gc_write(&mut db, &mut medium, "s", &second);

    let stored = gc_read(&mut db, &medium, "s");
    // the medium lists by name, which here is the order of writing
    let mut expected = first.clone();
    expected.extend(second);
    assert_eq!(stored, expected);
}

#[test]
fn append_write_plans_two_operations_per_message() {
    let mut db = GCStorage::new("root");
    let publish = Publish {
        packet_id: 102,
        retain: true,
        topic_name: "fake".to_owned(),
        payload: Payload { id: 1001, bytes: Arc::new(vec![1, 2, 3, 4, 5]) },
    };
    let ops = db.write("A", &[publish]).unwrap();
    assert_eq!(
        ops,
        vec![
            DiskOp::PutMessage {
                session: "A".to_owned(),
                key: 1001,
                body: vec![102, 0, 1, 4, 0, 0, 0, 0, 0, 0, 0, 102, 97, 107, 101, 0xE9, 3, 0, 0, 0, 0, 0, 0],
            },
            DiskOp::PutPayloadIfAbsent { id: 1001, bytes: Arc::new(vec![1, 2, 3, 4, 5]) },
        ]
    );
    assert_eq!(op_path(&ops[0]), vec!["Sessions", "A", "Messages", "1001"]);
    assert_eq!(op_path(&ops[1]), vec!["Payloads", "1001"]);
    assert!(!ops[0].continue_after_failure());
    assert_eq!(db.write("A", &[]).unwrap(), vec![]);
}

#[test]
fn same_payload_id_in_one_session_keeps_the_later_message() {
    let mut medium = Medium::new();
    let mut db = GCStorage::new("root");
    let early = Publish {
        packet_id: 1,
        retain: false,
        topic_name: "early".to_owned(),
        payload: Payload { id: 5, bytes: Arc::new(vec![1]) },
    };
    let late = Publish {
        packet_id: 2,
        retain: true,
        topic_name: "late".to_owned(),
        payload: Payload { id: 5, bytes: Arc::new(vec![2]) },
    };
    gc_write(&mut db, &mut medium, "s", &[early.clone(), late]);

    let stored = gc_read(&mut db, &medium, "s");
    assert_eq!(stored.len(), 1);
    assert_eq!(stored[0].topic_name, "late");
    // the first bytes written under an id stay
    assert_eq!(stored[0].payload, early.payload);
}

#[test]
fn read_of_an_unknown_session_is_empty() {
    let medium = Medium::new();
    assert_eq!(gc_read(&mut GCStorage::new("root"), &medium, "nobody"), vec![]);
    assert_eq!(db_read(&mut DB::new("root"), &medium, "nobody"), Ok(vec![]));
    assert_eq!(atomic_read(&mut atomic::GCStorage::new("root"), &medium, "nobody"), Ok(vec![]));
}

#[test]
fn read_fails_on_an_entry_that_fails() {
    let mut medium = Medium::new();
    let mut db = GCStorage::new("root");
    let mut faker = Faker::new();
    let good = faker.make_fake_publish(vec![1]);
    let lost = faker.make_fake_publish(vec![2]);
    gc_write(&mut db, &mut medium, "s", &[good.clone(), lost.clone()]);
    assert_eq!(gc_try_read(&mut db, &medium, "s"), Ok(vec![good.clone(), lost.clone()]));

    // an entry that could not be read
    let mut listing = medium.listing("s").unwrap();
    listing.push(None);
    assert_eq!(db.read(Some(listing), &|id| medium.payload(id)), Err(StorageError::Io));

    // an entry that does not decode
    medium.files.insert(message_path("s", 77), vec![1, 2, 3]);
    assert_eq!(gc_try_read(&mut db, &medium, "s"), Err(StorageError::Codec));
    medium.files.remove(&message_path("s", 77)).unwrap();

    // a payload that is gone from the medium and from memory
    medium.files.remove(&payload_path(lost.payload.id)).unwrap();
    assert_eq!(gc_try_read(&mut db, &medium, "s"), Err(StorageError::NotFound));
    let broken = db.read(medium.listing("s"), &|_id| Err(StorageError::Io));
    assert_eq!(broken, Err(StorageError::Io));

    // the first entry that fails decides
    let listing = vec![Some(vec![9]), None];
    assert_eq!(db.read(Some(listing), &|id| medium.payload(id)), Err(StorageError::Codec));
    let listing = vec![None, Some(vec![9])];
    assert_eq!(db.read(Some(listing), &|id| medium.payload(id)), Err(StorageError::Io));
}

#[test]
fn read_that_fails_keeps_what_it_resolved() {
    let mut medium = Medium::new();
    let mut db = GCStorage::new("root");
    let mut faker = Faker::new();
    let good = faker.make_fake_publish(vec![1]);
    let lost = faker.make_fake_publish(vec![2]);
    gc_write(&mut db, &mut medium, "s", &[good, lost.clone()]);
    medium.files.remove(&payload_path(lost.payload.id)).unwrap();
    assert_eq!(gc_try_read(&mut db, &medium, "s"), Err(StorageError::NotFound));
    assert_eq!(db.cached_len(), 1);
}

#[test]
fn decode_entries_gives_the_records_in_order() {
    let mut db = GCStorage::new("root");
    let mut faker = Faker::new();
    let first = faker.make_fake_publish(vec![1]);
    let second = faker.make_fake_publish(vec![2]);
    let ops = db.write("s", &[first.clone(), second.clone()]).unwrap();
    let bodies: Vec<Option<Vec<u8>>> = ops
        .iter()
        .filter_map(|op| match op {
            DiskOp::PutMessage { body, .. } => Some(Some(body.clone())),
            _ => None,
        })
        .collect();
    let records = GCStorage::decode_entries(&bodies).unwrap();
    assert_eq!(records, vec![first.to_disk(), second.to_disk()]);
    assert_eq!(GCStorage::decode_entries(&vec![]), Ok(vec![]));
    let resolved = db.resolve(&records, &|id| Ok(vec![(id % 256) as u8])).unwrap();
    assert_eq!(resolved[0].payload.bytes, Arc::new(vec![0xE9]));
    assert_eq!(resolved[1].payload.bytes, Arc::new(vec![0xEA]));
    assert_eq!(db.resolve(&records, &|_id| Err(StorageError::NotFound)).unwrap(), resolved);
    drop(resolved);
    assert_eq!(db.resolve(&records, &|_id| Err(StorageError::NotFound)), Err(StorageError::NotFound));
}

#[test]
fn second_read_shares_the_bytes_of_the_first() {
    let mut medium = Medium::new();
    let mut db = GCStorage::new("root");
    let mut faker = Faker::new();
    let publish = faker.make_fake_publish(vec![1, 2, 3, 4, 5]);
    gc_write(&mut db, &mut medium, "Session 1", &[publish.clone()]);
    gc_write(&mut db, &mut medium, "Session 2", &[publish]);

    let first = gc_read(&mut db, &medium, "Session 1");
    assert_eq!(medium.fetches.get(), 1);
    let second = gc_read(&mut db, &medium, "Session 2");
    assert_eq!(medium.fetches.get(), 1);
    assert!(Arc::ptr_eq(&first[0].payload.bytes, &second[0].payload.bytes));

    // once every holder is gone the payload is fetched again
    drop(first);
    drop(second);
    let third = gc_read(&mut db, &medium, "Session 1");
    assert_eq!(medium.fetches.get(), 2);
    assert_eq!(third[0].payload.bytes, Arc::new(vec![1, 2, 3, 4, 5]));
}

#[test]
fn get_payload_reports_what_fetch_reports() {
    let mut db = GCStorage::new("root");
    let missing = db.get_payload(3, &|_id| Err(StorageError::NotFound));
    assert_eq!(missing, Err(StorageError::NotFound));
    let broken = db.get_payload(3, &|_id| Err(StorageError::Io));
    assert_eq!(broken, Err(StorageError::Io));
    assert_eq!(db.cached_len(), 0);
    let found = db.get_payload(3, &|id| Ok(vec![id as u8])).unwrap();
    assert_eq!(found, Payload { id: 3, bytes: Arc::new(vec![3]) });
    assert_eq!(db.cached_len(), 1);
}

#[test]
fn parse_body_decodes_and_resolves() {
    let mut db = GCStorage::new("root");
    let body = vec![102, 0, 1, 4, 0, 0, 0, 0, 0, 0, 0, 102, 97, 107, 101, 0xE9, 3, 0, 0, 0, 0, 0, 0];
    let publish = db.parse_body(&body, &|id| Ok(vec![(id % 256) as u8])).unwrap();
    assert_eq!(
        publish,
        Publish {
            packet_id: 102,
            retain: true,
            topic_name: "fake".to_owned(),
            payload: Payload { id: 1001, bytes: Arc::new(vec![0xE9]) },
        }
    );
    assert_eq!(db.parse_body(&body[..10], &|_id| Ok(vec![])), Err(StorageError::Codec));
    let mut other = GCStorage::new("root");
    assert_eq!(other.parse_body(&body, &|_id| Err(StorageError::Io)), Err(StorageError::Io));
}

#[test]
fn collector_sweeps_exactly_what_is_stored_and_unreferenced() {
    let mut db = GCStorage::new("root");
    let stored: Vec<String> = vec!["1".into(), "2".into(), "3".into(), "+2".into(), "4".into()];
    let sessions: Vec<Vec<String>> = vec![vec!["3".into()], vec![], vec!["9".into(), "1".into()]];
    let ops = db.clean(&stored, &sessions).unwrap();
    assert_eq!(ops, vec![DiskOp::DeletePayload { id: 2 }, DiskOp::DeletePayload { id: 4 }]);
    assert!(ops[0].continue_after_failure());
    assert_eq!(db.clean(&vec![], &sessions).unwrap(), vec![]);
    assert_eq!(db.clean(&stored, &vec![]).unwrap().len(), 4);
}

#[test]
fn collector_rejects_a_name_that_is_no_id() {
    let mut db = GCStorage::new("root");
    let good: Vec<String> = vec!["1".into()];
    let bad: Vec<String> = vec!["1".into(), "x1".into()];
    assert_eq!(db.clean(&bad, &vec![]), Err(StorageError::Codec));
    assert_eq!(db.clean(&good, &vec![good.clone(), bad.clone()]), Err(StorageError::Codec));
    assert_eq!(GCStorage::get_payload_ids(&bad), Err(StorageError::Codec));
}

#[test]
fn collector_never_removes_a_referenced_payload_and_leaves_only_referenced_ones() {
    let mut medium = Medium::new();
    let mut db = GCStorage::new("root");
    let mut faker = Faker::new();
    let kept = faker.make_fake_publish(vec![1]);
    let orphan = faker.make_fake_publish(vec![2]);
    gc_write(&mut db, &mut medium, "a", &[kept.clone(), orphan.clone()]);
    gc_write(&mut db, &mut medium, "b", &[kept.clone()]);
    medium.files.remove(&message_path("a", orphan.payload.id)).unwrap();

    assert!(gc_clean(&mut db, &mut medium).is_empty());
    assert_eq!(medium.children(&payloads_path()), vec![kept.payload.id.to_string()]);
    assert_eq!(gc_read(&mut db, &medium, "a"), vec![kept.clone()]);
    assert_eq!(gc_read(&mut db, &medium, "b"), vec![kept]);
}

#[test]
fn collecting_twice_is_collecting_once() {
    let mut medium = Medium::new();
    let mut db = GCStorage::new("root");
    let mut faker = Faker::new();
    let kept = faker.make_fake_publish(vec![1]);
    let orphan = faker.make_fake_publish(vec![2]);
    gc_write(&mut db, &mut medium, "a", &[kept, orphan.clone()]);
    medium.files.remove(&message_path("a", orphan.payload.id)).unwrap();

    gc_clean(&mut db, &mut medium);
    let once = medium.children(&payloads_path());
    let stored = medium.children(&payloads_path());
    let sessions = medium.session_names();
    assert_eq!(db.clean(&stored, &sessions).unwrap(), vec![]);
    gc_clean(&mut db, &mut medium);
    assert_eq!(medium.children(&payloads_path()), once);
}

#[test]
fn a_failed_deletion_is_reported_and_the_sweep_goes_on() {
    let mut medium = Medium::new();
    medium.files.insert(payload_path(2), vec![2]);
    let ops = vec![DiskOp::DeletePayload { id: 1 }, DiskOp::DeletePayload { id: 2 }];
    let failures = medium.perform(&ops);
    assert_eq!(failures, vec![(payload_path(1), StorageError::NotFound)]);
    assert!(medium.files.is_empty());
}

#[test]
fn collector_prunes_released_payloads() {
    let mut medium = Medium::new();
    let mut db = GCStorage::new("root");
    let mut faker = Faker::new();
    let held = faker.make_fake_publish(vec![1]);
    let released = faker.make_fake_publish(vec![2]);
    gc_write(&mut db, &mut medium, "a", &[held, released]);
    let stored = gc_read(&mut db, &medium, "a");
    assert_eq!(db.cached_len(), 2);
    let held = stored[0].clone();
    drop(stored);

    assert!(gc_clean(&mut db, &mut medium).is_empty());
    assert_eq!(db.cached_len(), 1);
    assert_eq!(held.payload.bytes, Arc::new(vec![1]));
}

#[test]
fn a_payload_is_forgotten_once_the_medium_has_removed_it() {
    let mut medium = Medium::new();
    let mut db = GCStorage::new("root");
    let mut faker = Faker::new();
    let publish = faker.make_fake_publish(vec![1]);
    gc_write(&mut db, &mut medium, "a", &[publish.clone()]);
    let held = gc_read(&mut db, &medium, "a");
    assert_eq!(db.cached_len(), 1);

    // planning a deletion leaves the cache alone
    let op = db.delete_payload(publish.payload.id);
    assert_eq!(db.cached_len(), 1);

    // a deletion that fails on the medium leaves it alone too
    let elsewhere = db.delete_payload(9999);
    let failures = gc_delete(&mut db, &mut medium, &[elsewhere]);
    assert_eq!(failures, vec![(payload_path(9999), StorageError::NotFound)]);
    assert_eq!(db.cached_len(), 1);

    // once the medium has removed the payload, the store forgets it
    assert!(gc_delete(&mut db, &mut medium, &[op]).is_empty());
    assert_eq!(db.cached_len(), 0);
    db.deleted(publish.payload.id);
    assert_eq!(db.cached_len(), 0);
    assert_eq!(held[0].payload.bytes, Arc::new(vec![1]));
}

#[test]
fn collector_leaves_the_cache_entry_of_a_swept_payload_to_the_confirmation() {
    let mut medium = Medium::new();
    let mut db = GCStorage::new("root");
    let mut faker = Faker::new();
    let orphan = faker.make_fake_publish(vec![2]);
    gc_write(&mut db, &mut medium, "a", &[orphan.clone()]);
    let held = gc_read(&mut db, &medium, "a");
    medium.files.remove(&message_path("a", orphan.payload.id)).unwrap();

    let stored = medium.children(&payloads_path());
    let ops = db.clean(&stored, &medium.session_names()).unwrap();
    assert_eq!(ops, vec![DiskOp::DeletePayload { id: orphan.payload.id }]);
    assert_eq!(db.cached_len(), 1);
    assert!(gc_delete(&mut db, &mut medium, &ops).is_empty());
    assert_eq!(db.cached_len(), 0);
    drop(held);
}

#[test]
fn consolidated_write_replaces_the_session() {
    let mut medium = Medium::new();
    let mut db = DB::new("root");
    let mut faker = Faker::new();
    let first = vec![faker.make_fake_publish(vec![1]), faker.make_fake_publish(vec![2])];
    let second = vec![faker.make_fake_publish(vec![3])];
    db_write(&mut db, &mut medium, "s", &first);
    assert_eq!(db_read(&mut db, &medium, "s"), Ok(first));
    db_write(&mut db, &mut medium, "s", &second);
    assert_eq!(db_read(&mut db, &medium, "s"), Ok(second));
    assert_eq!(medium.files.len(), 1);
}

#[test]
fn consolidated_write_stores_the_batch_inline() {
    let mut db = DB::new("root");
    let publish = Publish {
        packet_id: 258,
        retain: false,
        topic_name: "ab".to_owned(),
        payload: Payload { id: 3, bytes: Arc::new(vec![7, 8]) },
    };
    let ops = db.write("s", &[publish]).unwrap();
    let body = vec![
        1, 0, 0, 0, 0, 0, 0, 0, // one message
        2, 1, // packet id
        0, // retain
        2, 0, 0, 0, 0, 0, 0, 0, 97, 98, // topic
        2, 0, 0, 0, 0, 0, 0, 0, 7, 8, // payload bytes
        3, 0, 0, 0, 0, 0, 0, 0, // payload id
    ];
    assert_eq!(ops, vec![DiskOp::PutSession { session: "s".to_owned(), body }]);
    assert_eq!(op_path(&ops[0]), vec!["s"]);
}

#[test]
fn consolidated_read_rejects_malformed_bytes() {
    let mut db = DB::new("root");
    let fetch = |_id: u64| -> Result<Vec<u8>, StorageError> { Err(StorageError::Io) };
    assert_eq!(db.read(Some(vec![5, 0, 0]), &fetch), Err(StorageError::Codec));
    assert_eq!(db.read(Some(vec![]), &fetch), Err(StorageError::Codec));
}

#[test]
fn id_keyed_store_shares_by_id_alone() {
    let mut medium = Medium::new();
    let mut db = DB::new("root");
    assert_eq!(db.dedup(), DedupKey::PayloadId);
    let one = Publish {
        packet_id: 1,
        retain: true,
        topic_name: "x".to_owned(),
        payload: Payload { id: 9, bytes: Arc::new(vec![1, 1]) },
    };
    let other = Publish {
        packet_id: 2,
        retain: true,
        topic_name: "y".to_owned(),
        payload: Payload { id: 9, bytes: Arc::new(vec![2, 2]) },
    };
    db_write(&mut db, &mut medium, "a", &[one.clone()]);
    db_write(&mut db, &mut medium, "b", &[other]);
    let a = db_read(&mut db, &medium, "a").unwrap();
    let b = db_read(&mut db, &medium, "b").unwrap();
    assert_eq!(a, vec![one]);
    // the id is live in the cache, so its bytes stand in for the stored ones
    assert_eq!(b[0].topic_name, "y");
    assert!(Arc::ptr_eq(&a[0].payload.bytes, &b[0].payload.bytes));
}

#[test]
fn content_keyed_store_shares_equal_bytes_only() {
    let mut medium = Medium::new();
    let mut db = DB::with_content_hash("root");
    assert_eq!(db.dedup(), DedupKey::ContentHash);
    let one = Publish {
        packet_id: 1,
        retain: true,
        topic_name: "x".to_owned(),
        payload: Payload { id: 9, bytes: Arc::new(vec![1, 1]) },
    };
    let same_bytes = Publish {
        packet_id: 2,
        retain: false,
        topic_name: "y".to_owned(),
        payload: Payload { id: 10, bytes: Arc::new(vec![1, 1]) },
    };
    let same_id = Publish {
        packet_id: 3,
        retain: false,
        topic_name: "z".to_owned(),
        payload: Payload { id: 9, bytes: Arc::new(vec![2, 2]) },
    };
    db_write(&mut db, &mut medium, "a", &[one.clone()]);
    db_write(&mut db, &mut medium, "b", &[same_bytes.clone(), same_id.clone()]);
    let a = db_read(&mut db, &medium, "a").unwrap();
    let b = db_read(&mut db, &medium, "b").unwrap();
    assert_eq!(a, vec![one]);
    assert_eq!(b, vec![same_bytes, same_id]);
    assert!(Arc::ptr_eq(&a[0].payload.bytes, &b[0].payload.bytes));
    // one entry for each distinct content that was handed out
    assert_eq!(db.cached_len(), 2);
    assert_eq!(DB::calculate_hash(&[1, 1]), DB::calculate_hash(&[1, 1]));
}

#[test]
fn atomic_write_plans_the_payloads_and_then_the_index() {
    let mut db = atomic::GCStorage::new("root");
    let mut faker = Faker::new();
    let batch = vec![faker.make_fake_publish(vec![1]), faker.make_fake_publish(vec![2])];
    let ops = db.write("s", &batch).unwrap();
    assert_eq!(ops.len(), 3);
    assert_eq!(ops[0], DiskOp::PutPayloadIfAbsent { id: 1001, bytes: Arc::new(vec![1]) });
    assert_eq!(ops[1], DiskOp::PutPayloadIfAbsent { id: 1002, bytes: Arc::new(vec![2]) });
    let body = vec![
        2, 0, 0, 0, 0, 0, 0, 0, // two records
        102, 0, 1, 4, 0, 0, 0, 0, 0, 0, 0, 102, 97, 107, 101, 0xE9, 3, 0, 0, 0, 0, 0, 0,
        104, 0, 1, 4, 0, 0, 0, 0, 0, 0, 0, 102, 97, 107, 101, 0xEA, 3, 0, 0, 0, 0, 0, 0,
    ];
    assert_eq!(ops[2], DiskOp::PutSession { session: "s".to_owned(), body });
}

#[test]
fn atomic_write_replaces_the_session_and_keeps_one_payload_per_id() {
    let mut medium = Medium::new();
    let mut db = atomic::GCStorage::new("root");
    let mut faker = Faker::new();
    let shared = faker.make_fake_publish(vec![1, 2]);
    let other = faker.make_fake_publish(vec![3]);
    let ops = db.write("a", &[shared.clone(), other]).unwrap();
    assert!(medium.perform(&ops).is_empty());
    let ops = db.write("a", &[shared.clone()]).unwrap();
    assert!(medium.perform(&ops).is_empty());
    let ops = db.write("b", &[shared.clone()]).unwrap();
    assert!(medium.perform(&ops).is_empty());

    assert_eq!(atomic_read(&mut db, &medium, "a"), Ok(vec![shared.clone()]));
    assert_eq!(atomic_read(&mut db, &medium, "b"), Ok(vec![shared]));
    assert_eq!(medium.children(&payloads_path()), vec!["1001", "1002"]);
}

#[test]
fn atomic_read_fails_when_a_payload_is_missing() {
    let mut medium = Medium::new();
    let mut db = atomic::GCStorage::new("root");
    let mut faker = Faker::new();
    let batch = vec![faker.make_fake_publish(vec![1]), faker.make_fake_publish(vec![2])];
    let ops = db.write("s", &batch).unwrap();
    assert!(medium.perform(&ops).is_empty());
    medium.files.remove(&payload_path(1002)).unwrap();

    assert_eq!(atomic_read(&mut db, &medium, "s"), Err(StorageError::NotFound));
    let stored = medium.files.get(&batch_path("s")).cloned();
    assert_eq!(db.read(stored, &|_id| Err(StorageError::Io)), Err(StorageError::Io));
    assert_eq!(db.read(Some(vec![1]), &|id| medium.payload(id)), Err(StorageError::Codec));
}

#[test]
fn stores_remember_their_location() {
    assert_eq!(GCStorage::new("/var/lib/a").location(), "/var/lib/a");
    assert_eq!(DB::new("b").location(), "b");
    assert_eq!(atomic::GCStorage::new("").location(), "");
}

#[test]
fn sweep_deletes_each_unreferenced_id_once() {
    let referenced: HashSet<u64> = [2, 5].into_iter().collect();
    let ops = sweep(&vec![3, 2, 1, 3, 5, 1], &referenced);
    assert_eq!(ops, vec![DiskOp::DeletePayload { id: 3 }, DiskOp::DeletePayload { id: 1 }]);
    assert_eq!(sweep(&vec![], &referenced), vec![]);
    assert_eq!(sweep(&vec![2, 5], &referenced), vec![]);
    assert_eq!(sweep(&vec![7], &HashSet::new()), vec![DiskOp::DeletePayload { id: 7 }]);
}

#[test]
fn atomic_collector_sweeps_what_no_index_names() {
    let mut medium = Medium::new();
    let mut db = atomic::GCStorage::new("root");
    let mut faker = Faker::new();
    let kept = faker.make_fake_publish(vec![1]);
    let dropped = faker.make_fake_publish(vec![2]);
    let ops = db.write("a", &[kept.clone(), dropped.clone()]).unwrap();
    assert!(medium.perform(&ops).is_empty());
    // the session is overwritten with a smaller batch
    let ops = db.write("a", &[kept.clone()]).unwrap();
    assert!(medium.perform(&ops).is_empty());

    let stored = vec![kept.payload.id, dropped.payload.id];
    let indexes = vec![medium.files.get(&batch_path("a")).cloned().unwrap()];
    let ops = db.clean(&stored, &indexes).unwrap();
    assert_eq!(ops, vec![DiskOp::DeletePayload { id: dropped.payload.id }]);
    assert!(medium.perform(&ops).is_empty());
    assert_eq!(atomic_read(&mut db, &medium, "a"), Ok(vec![kept.clone()]));

    // a second collection finds nothing to do
    let ops = db.clean(&vec![kept.payload.id], &indexes).unwrap();
    assert_eq!(ops, vec![]);
}

#[test]
fn atomic_collector_rejects_an_index_that_does_not_decode() {
    let mut db = atomic::GCStorage::new("root");
    let good = encode_index(&vec![]).unwrap();
    assert_eq!(db.clean(&vec![1], &vec![good.clone(), vec![9]]), Err(StorageError::Codec));
    assert_eq!(db.clean(&vec![1], &vec![good]), Ok(vec![DiskOp::DeletePayload { id: 1 }]));
    assert_eq!(db.clean(&vec![1], &vec![]), Ok(vec![DiskOp::DeletePayload { id: 1 }]));
}

#[test]
fn atomic_store_names_its_keyspaces() {
    assert_eq!(atomic::payload_keyspace(), "Payloads");
    assert_eq!(atomic::index_keyspace(), "Messages");
}

#[test]
fn content_keyed_store_caches_every_payload_it_hands_out() {
    let mut db = DB::with_content_hash("root");
    let mut faker = Faker::new();
    let batch = vec![
        faker.make_fake_publish(vec![1]),
        faker.make_fake_publish(vec![2]),
        faker.make_fake_publish(vec![1]),
    ];
    let shared = db.share_by_content(batch.clone());
    assert_eq!(shared, batch);
    assert_eq!(db.cached_len(), 2);
    assert!(Arc::ptr_eq(&shared[0].payload.bytes, &shared[2].payload.bytes));
    assert!(!Arc::ptr_eq(&shared[0].payload.bytes, &batch[2].payload.bytes));
}

#[test]
fn payload_keys_are_the_id_in_eight_bytes() {
    assert_eq!(atomic::payload_key(1001), vec![0xE9, 3, 0, 0, 0, 0, 0, 0]);
    assert_eq!(atomic::payload_key(0), vec![0; 8]);
    assert_eq!(atomic::payload_key(u64::MAX), vec![255; 8]);
    for id in [0, 1, 255, 256, 1001, 0x0102030405060708, u64::MAX] {
        assert_eq!(atomic::parse_payload_key(&atomic::payload_key(id)), Some(id));
    }
    assert_eq!(atomic::parse_payload_key(&[1, 2, 3]), None);
    assert_eq!(atomic::parse_payload_key(&[]), None);
    assert_eq!(atomic::parse_payload_key(&[0; 9]), None);
    let keys = vec![atomic::payload_key(7), atomic::payload_key(0x0100)];
    assert_eq!(atomic::GCStorage::get_payload_ids(&keys), Ok(vec![7, 256]));
    let keys = vec![atomic::payload_key(7), vec![7]];
    assert_eq!(atomic::GCStorage::get_payload_ids(&keys), Err(StorageError::Codec));
}

#[test]
fn every_write_succeeds() {
    let empty = Publish {
        packet_id: 0,
        retain: false,
        topic_name: String::new(),
        payload: Payload { id: 0, bytes: Arc::new(vec![]) },
    };
    let large = Publish {
        packet_id: u16::MAX,
        retain: true,
        topic_name: "t".repeat(70_000),
        payload: Payload { id: u64::MAX, bytes: Arc::new(vec![7; 100_000]) },
    };
    let batch = vec![empty, large.clone(), large];
    assert_eq!(GCStorage::new("root").write("s", &batch).unwrap().len(), 6);
    assert_eq!(DB::new("root").write("s", &batch).unwrap().len(), 1);
    assert_eq!(atomic::GCStorage::new("root").write("s", &batch).unwrap().len(), 4);
    assert!(GCStorage::write_body("s", &batch[1].to_disk()).is_ok());
}

#[test]
fn the_first_bytes_written_under_an_id_stay() {
    let first = Publish {
        packet_id: 102,
        retain: true,
        topic_name: "fake".to_owned(),
        payload: Payload { id: 1001, bytes: Arc::new(vec![1, 2, 3]) },
    };
    let second = Publish {
        packet_id: 104,
        retain: true,
        topic_name: "fake".to_owned(),
        payload: Payload { id: 1001, bytes: Arc::new(vec![9, 9]) },
    };
    let kept = Publish { payload: first.payload.clone(), ..second.clone() };

    // the id-addressed store
    let mut medium = Medium::new();
    let mut db = GCStorage::new("root");
    gc_write(&mut db, &mut medium, "S1", &[first.clone()]);
    gc_write(&mut db, &mut medium, "S2", &[second.clone()]);
    assert_eq!(medium.files.get(&payload_path(1001)), Some(&vec![1u8, 2, 3]));
    assert_eq!(gc_try_read(&mut db, &medium, "S2"), Ok(vec![kept.clone()]));

    // the atomic-batch store
    let mut medium = Medium::new();
    let mut db = atomic::GCStorage::new("root");
    let ops = db.write("S1", &[first.clone()]).unwrap();
    assert!(medium.perform(&ops).is_empty());
    let ops = db.write("S2", &[second.clone()]).unwrap();
    assert!(medium.perform(&ops).is_empty());
    assert_eq!(medium.files.get(&payload_path(1001)), Some(&vec![1u8, 2, 3]));
    assert_eq!(atomic_read(&mut db, &medium, "S2"), Ok(vec![kept.clone()]));
    assert_eq!(atomic_read(&mut db, &medium, "S1"), Ok(vec![first.clone()]));

    // within one batch, too
    let mut medium = Medium::new();
    let ops = db.write("S", &[first.clone(), second]).unwrap();
    assert!(medium.perform(&ops).is_empty());
    assert_eq!(atomic_read(&mut db, &medium, "S"), Ok(vec![first, kept]));
}
