use storage_engine::{
    holders_of, run, Action, BackendKind, Completion, DurabilityLevel, EngineHandle, Holders, Holding, KeyRange,
    LocationState, OpenConfig, OpenLocations, Record, RecordTable, Registry, Reply, Request, Stage, StorageError,
};

fn full_registry() -> Registry {
    let mut registry = Registry::new();
    registry.register(BackendKind::Baseline);
    registry.register(BackendKind::Fjall);
    registry.register(BackendKind::Sled);
    registry.register(BackendKind::Libsql);
    registry.register(BackendKind::Sqlite);
    registry
}

fn fresh() -> LocationState {
    LocationState { exists: false, holders: Holders::Nobody }
}

fn present() -> LocationState {
    LocationState { exists: true, holders: Holders::Nobody }
}

fn writable() -> OpenConfig {
    OpenConfig { create_if_missing: true, read_only: false }
}

fn open_writable(location: &str) -> EngineHandle {
    EngineHandle::open(&full_registry(), BackendKind::Baseline, location.to_string(), writable(), fresh()).unwrap()
}

fn open_read_only(location: &str) -> EngineHandle {
    let config = OpenConfig { create_if_missing: false, read_only: true };
    EngineHandle::open(&full_registry(), BackendKind::Baseline, location.to_string(), config, present()).unwrap()
}

fn put(h: &mut EngineHandle, t: &mut RecordTable, k: &[u8], v: &[u8], d: DurabilityLevel) -> Result<Completion, StorageError> {
    let action = h.put(k.to_vec(), v.to_vec(), d);
    run(h, t, action)
}

fn get(h: &mut EngineHandle, t: &mut RecordTable, k: &[u8]) -> Result<Completion, StorageError> {
    let action = h.get(k.to_vec());
    run(h, t, action)
}

fn delete(h: &mut EngineHandle, t: &mut RecordTable, k: &[u8]) -> Result<Completion, StorageError> {
    let action = h.delete(k.to_vec());
    run(h, t, action)
}

fn close(h: &mut EngineHandle, t: &mut RecordTable) -> Result<Completion, StorageError> {
    let action = h.close();
    run(h, t, action)
}

fn value(bytes: &[u8]) -> Result<Completion, StorageError> {
    Ok(Completion::Value(Some(bytes.to_vec())))
}

#[test]
fn scenario_put_get_sync_close_reopen() {
    let registry = full_registry();
    let kind = registry.resolve("baseline").unwrap();
    let mut table = RecordTable::new();
    let mut h = EngineHandle::open(&registry, kind, "t1".to_string(), writable(), fresh()).unwrap();
    assert_eq!(put(&mut h, &mut table, b"hello", b"world", DurabilityLevel::Flushed), Ok(Completion::Done));
    assert_eq!(h.reached(), DurabilityLevel::Flushed);
    assert_eq!(get(&mut h, &mut table, b"hello"), value(b"world"));
    let action = h.sync();
    assert_eq!(run(&mut h, &mut table, action), Ok(Completion::Done));
    assert_eq!(h.reached(), DurabilityLevel::Synced);
    assert_eq!(close(&mut h, &mut table), Ok(Completion::Closed { flush_failed: false }));
    assert!(!h.is_open());
    let config = OpenConfig { create_if_missing: false, read_only: false };
    let mut h2 = EngineHandle::open(&registry, kind, "t1".to_string(), config, present()).unwrap();
    assert_eq!(h2.location(), "t1");
    assert_eq!(h2.kind(), BackendKind::Baseline);
    assert_eq!(get(&mut h2, &mut table, b"hello"), value(b"world"));
}

#[test]
fn put_then_get_returns_the_value() {
    let mut table = RecordTable::new();
    let mut h = open_writable("notes");
    assert_eq!(put(&mut h, &mut table, b"k", b"v1", DurabilityLevel::Synced), Ok(Completion::Done));
    assert_eq!(get(&mut h, &mut table, b"k"), value(b"v1"));
    assert_eq!(put(&mut h, &mut table, b"k", b"v2", DurabilityLevel::Buffered), Ok(Completion::Done));
    assert_eq!(get(&mut h, &mut table, b"k"), value(b"v2"));
    assert_eq!(table.len(), 1);
}

#[test]
fn empty_value_is_stored() {
    let mut table = RecordTable::new();
    let mut h = open_writable("notes");
    assert_eq!(put(&mut h, &mut table, b"k", b"", DurabilityLevel::Synced), Ok(Completion::Done));
    assert_eq!(get(&mut h, &mut table, b"k"), value(b""));
}

#[test]
fn get_of_an_absent_key_is_none() {
    let mut table = RecordTable::new();
    let mut h = open_writable("notes");
    assert_eq!(get(&mut h, &mut table, b"nothing"), Ok(Completion::Value(None)));
}

#[test]
fn delete_then_get_is_none_and_delete_repeats() {
    let mut table = RecordTable::new();
    let mut h = open_writable("drafts");
    assert_eq!(put(&mut h, &mut table, b"k", b"v", DurabilityLevel::Synced), Ok(Completion::Done));
    assert_eq!(delete(&mut h, &mut table, b"k"), Ok(Completion::Done));
    assert_eq!(get(&mut h, &mut table, b"k"), Ok(Completion::Value(None)));
    assert_eq!(delete(&mut h, &mut table, b"k"), Ok(Completion::Done));
    assert_eq!(table.len(), 0);
    assert_eq!(h.reached(), DurabilityLevel::Buffered);
}

#[test]
fn round_trip_across_reopen() {
    let mut table = RecordTable::new();
    let mut h = open_writable("ledger");
    assert_eq!(put(&mut h, &mut table, b"k", b"v", DurabilityLevel::Synced), Ok(Completion::Done));
    assert_eq!(close(&mut h, &mut table), Ok(Completion::Closed { flush_failed: false }));
    let mut h2 = open_read_only("ledger");
    assert_eq!(get(&mut h2, &mut table, b"k"), value(b"v"));
}

#[test]
fn empty_key_is_rejected_for_every_backend() {
    let kinds = [
        BackendKind::Baseline,
        BackendKind::Fjall,
        BackendKind::Sled,
        BackendKind::Libsql,
        BackendKind::Sqlite,
    ];
    let levels = [DurabilityLevel::Buffered, DurabilityLevel::Flushed, DurabilityLevel::Synced];
    for kind in kinds {
        let h = EngineHandle::open(&full_registry(), kind, "inbox".to_string(), writable(), fresh()).unwrap();
        for level in levels {
            assert_eq!(h.put(Vec::new(), b"v".to_vec(), level), Action::Return(Err(StorageError::InvalidKey)));
        }
        assert_eq!(h.get(Vec::new()), Action::Return(Err(StorageError::InvalidKey)));
        assert_eq!(h.delete(Vec::new()), Action::Return(Err(StorageError::InvalidKey)));
    }
}

#[test]
fn read_only_handle_refuses_put_and_serves_get() {
    let mut table = RecordTable::new();
    table.put(b"k".to_vec(), b"v".to_vec());
    let mut h = open_read_only("archive");
    assert!(h.is_read_only());
    assert_eq!(
        put(&mut h, &mut table, b"k", b"other", DurabilityLevel::Synced),
        Err(StorageError::ReadOnlyViolation)
    );
    assert_eq!(delete(&mut h, &mut table, b"k"), Err(StorageError::ReadOnlyViolation));
    assert_eq!(get(&mut h, &mut table, b"k"), value(b"v"));
    let action = h.flush();
    assert_eq!(run(&mut h, &mut table, action), Ok(Completion::Done));
}

#[test]
fn scan_of_a_hundred_random_keys_is_strictly_ascending() {
    let mut table = RecordTable::new();
    let mut h = open_writable("index");
    let mut seed: u64 = 0x2545_f491_4f6c_dd1d;
    let mut expected: std::collections::BTreeMap<Vec<u8>, Vec<u8>> = std::collections::BTreeMap::new();
    for n in 0..100u32 {
        seed = seed.wrapping_mul(6364136223846793005).wrapping_add(1442695040888963407);
        let length = 1 + (seed >> 60) as usize % 4;
        let key: Vec<u8> = seed.to_be_bytes()[..length].to_vec();
        let val: Vec<u8> = n.to_le_bytes().to_vec();
        expected.insert(key.clone(), val.clone());
        assert_eq!(put(&mut h, &mut table, &key, &val, DurabilityLevel::Buffered), Ok(Completion::Done));
    }
    let action = h.scan(KeyRange::all());
    let listed = match run(&mut h, &mut table, action) {
        Ok(Completion::Records(listed)) => listed,
        other => panic!("scan gave {:?}", other),
    };
    assert_eq!(listed.len(), expected.len());
    for pair in listed.windows(2) {
        assert!(pair[0].key < pair[1].key);
    }
    for (record, (key, val)) in listed.iter().zip(expected.iter()) {
        assert_eq!(&record.key, key);
        assert_eq!(&record.value, val);
    }
}

#[test]
fn scan_keeps_to_its_range() {
    let mut table = RecordTable::new();
    let mut h = open_writable("index");
    for key in [&b"d"[..], b"a", b"c", b"b", b"ab", b"e"] {
        assert_eq!(put(&mut h, &mut table, key, key, DurabilityLevel::Buffered), Ok(Completion::Done));
    }
    let action = h.scan(KeyRange::between(b"ab".to_vec(), b"d".to_vec()));
    let listed = match run(&mut h, &mut table, action) {
        Ok(Completion::Records(listed)) => listed,
        other => panic!("scan gave {:?}", other),
    };
    let keys: Vec<Vec<u8>> = listed.into_iter().map(|record| record.key).collect();
    assert_eq!(keys, vec![b"ab".to_vec(), b"b".to_vec(), b"c".to_vec()]);
}

#[test]
fn scan_of_a_range_without_keys_asks_nothing() {
    let h = open_writable("index");
    let nothing = Action::Return(Ok(Completion::Records(vec![])));
    assert_eq!(h.scan(KeyRange::between(b"d".to_vec(), b"b".to_vec())), nothing);
    assert_eq!(h.scan(KeyRange::between(b"b".to_vec(), b"b".to_vec())), nothing);
    assert!(matches!(h.scan(KeyRange::between(b"b".to_vec(), b"c".to_vec())), Action::Perform { .. }));
    assert!(matches!(h.scan(KeyRange { start: None, end: Some(Vec::new()) }), Action::Perform { .. }));
}

#[test]
fn scan_orders_what_an_adapter_lists_in_any_order() {
    let mut h = open_writable("index");
    let range = KeyRange { start: Some(b"b".to_vec()), end: None };
    let stage = match h.scan(range) {
        Action::Perform { request: Request::List { range }, stage } => {
            assert_eq!(range, KeyRange { start: Some(b"b".to_vec()), end: None });
            stage
        },
        other => panic!("scan gave {:?}", other),
    };
    let listing = vec![
        Record { key: b"z".to_vec(), value: b"1".to_vec() },
        Record { key: b"c".to_vec(), value: b"2".to_vec() },
        Record { key: b"a".to_vec(), value: b"3".to_vec() },
        Record { key: b"c".to_vec(), value: b"4".to_vec() },
        Record { key: b"b".to_vec(), value: b"5".to_vec() },
    ];
    let expected = vec![
        Record { key: b"b".to_vec(), value: b"5".to_vec() },
        Record { key: b"c".to_vec(), value: b"4".to_vec() },
        Record { key: b"z".to_vec(), value: b"1".to_vec() },
    ];
    assert_eq!(h.resume(stage, Reply::Records(listing)), Action::Return(Ok(Completion::Records(expected))));
}

#[test]
fn closed_handle_refuses_every_operation() {
    let mut table = RecordTable::new();
    let mut h = open_writable("shelf");
    assert_eq!(close(&mut h, &mut table), Ok(Completion::Closed { flush_failed: false }));
    assert_eq!(get(&mut h, &mut table, b"k"), Err(StorageError::HandleClosed));
    assert_eq!(put(&mut h, &mut table, b"k", b"v", DurabilityLevel::Synced), Err(StorageError::HandleClosed));
    assert_eq!(put(&mut h, &mut table, b"", b"v", DurabilityLevel::Synced), Err(StorageError::HandleClosed));
    assert_eq!(delete(&mut h, &mut table, b"k"), Err(StorageError::HandleClosed));
    assert_eq!(h.scan(KeyRange::all()), Action::Return(Err(StorageError::HandleClosed)));
    assert_eq!(h.flush(), Action::Return(Err(StorageError::HandleClosed)));
    assert_eq!(h.sync(), Action::Return(Err(StorageError::HandleClosed)));
    assert_eq!(h.resume(Stage::Reading, Reply::Value(None)), Action::Return(Err(StorageError::HandleClosed)));
    assert_eq!(table.len(), 0);
}

#[test]
fn close_is_idempotent() {
    let mut table = RecordTable::new();
    let mut h = open_writable("attic");
    assert_eq!(close(&mut h, &mut table), Ok(Completion::Closed { flush_failed: false }));
    assert_eq!(h.close(), Action::Return(Ok(Completion::Closed { flush_failed: false })));
    assert_eq!(close(&mut h, &mut table), Ok(Completion::Closed { flush_failed: false }));
    assert!(!h.is_open());
}

#[test]
fn close_flushes_buffered_writes_before_it_releases() {
    let mut table = RecordTable::new();
    let mut h = open_writable("cellar");
    assert_eq!(put(&mut h, &mut table, b"k", b"v", DurabilityLevel::Buffered), Ok(Completion::Done));
    assert_eq!(h.reached(), DurabilityLevel::Buffered);
    assert_eq!(h.close(), Action::Perform { request: Request::Flush, stage: Stage::Closing });
    assert_eq!(
        h.resume(Stage::Closing, Reply::Done),
        Action::Perform { request: Request::Release, stage: Stage::Releasing { flush_failed: false } }
    );
    assert!(h.is_open());
    assert_eq!(
        h.resume(Stage::Releasing { flush_failed: false }, Reply::Done),
        Action::Return(Ok(Completion::Closed { flush_failed: false }))
    );
    assert!(!h.is_open());
}

#[test]
fn close_without_buffered_writes_only_releases() {
    let mut table = RecordTable::new();
    let mut h = open_writable("porch");
    assert_eq!(put(&mut h, &mut table, b"k", b"v", DurabilityLevel::Flushed), Ok(Completion::Done));
    assert_eq!(
        h.close(),
        Action::Perform { request: Request::Release, stage: Stage::Releasing { flush_failed: false } }
    );
}

#[test]
fn close_warns_when_the_last_flush_fails_and_still_closes() {
    let mut table = RecordTable::new();
    let mut h = open_writable("barn");
    assert_eq!(put(&mut h, &mut table, b"k", b"v", DurabilityLevel::Buffered), Ok(Completion::Done));
    assert_eq!(h.close(), Action::Perform { request: Request::Flush, stage: Stage::Closing });
    assert_eq!(
        h.resume(Stage::Closing, Reply::Failed),
        Action::Perform { request: Request::Release, stage: Stage::Releasing { flush_failed: true } }
    );
    assert_eq!(
        h.resume(Stage::Releasing { flush_failed: true }, Reply::Failed),
        Action::Return(Ok(Completion::Closed { flush_failed: true }))
    );
    assert!(!h.is_open());
}

#[test]
fn put_steps_follow_the_durability_level() {
    let mut h = open_writable("journal");
    let write = Request::Write { key: b"k".to_vec(), value: b"v".to_vec() };
    assert_eq!(
        h.put(b"k".to_vec(), b"v".to_vec(), DurabilityLevel::Synced),
        Action::Perform { request: write, stage: Stage::Writing(DurabilityLevel::Synced) }
    );
    assert_eq!(
        h.resume(Stage::Writing(DurabilityLevel::Synced), Reply::Done),
        Action::Perform { request: Request::Sync, stage: Stage::Syncing }
    );
    assert_eq!(h.reached(), DurabilityLevel::Buffered);
    assert_eq!(h.resume(Stage::Syncing, Reply::Done), Action::Return(Ok(Completion::Done)));
    assert_eq!(h.reached(), DurabilityLevel::Synced);
    assert_eq!(
        h.resume(Stage::Writing(DurabilityLevel::Flushed), Reply::Done),
        Action::Perform { request: Request::Flush, stage: Stage::Flushing }
    );
    assert_eq!(h.resume(Stage::Flushing, Reply::Done), Action::Return(Ok(Completion::Done)));
    assert_eq!(h.reached(), DurabilityLevel::Flushed);
    assert_eq!(
        h.resume(Stage::Writing(DurabilityLevel::Buffered), Reply::Done),
        Action::Return(Ok(Completion::Done))
    );
    assert_eq!(h.reached(), DurabilityLevel::Buffered);
}

#[test]
fn flush_does_not_lower_a_synced_handle() {
    let mut h = open_writable("diary");
    assert_eq!(h.reached(), DurabilityLevel::Synced);
    assert_eq!(h.flush(), Action::Perform { request: Request::Flush, stage: Stage::Flushing });
    assert_eq!(h.resume(Stage::Flushing, Reply::Done), Action::Return(Ok(Completion::Done)));
    assert_eq!(h.reached(), DurabilityLevel::Synced);
}

#[test]
fn backend_failures_keep_the_backend_identity() {
    let mut h =
        EngineHandle::open(&full_registry(), BackendKind::Sled, "vault".to_string(), writable(), fresh()).unwrap();
    let io = Action::Return(Err(StorageError::IOFailure { backend: BackendKind::Sled }));
    let durability = Action::Return(Err(StorageError::DurabilityFailure { backend: BackendKind::Sled }));
    assert_eq!(h.resume(Stage::Reading, Reply::Failed), io);
    assert_eq!(h.resume(Stage::Writing(DurabilityLevel::Synced), Reply::Failed), io);
    assert_eq!(h.resume(Stage::Removing, Reply::Failed), io);
    assert_eq!(h.resume(Stage::Listing(KeyRange::all()), Reply::Failed), io);
    assert_eq!(h.resume(Stage::Reading, Reply::Done), io);
    assert_eq!(h.resume(Stage::Flushing, Reply::Failed), durability);
    assert_eq!(h.resume(Stage::Syncing, Reply::Failed), durability);
    assert_eq!(h.reached(), DurabilityLevel::Synced);
    assert_eq!(StorageError::IOFailure { backend: BackendKind::Sled }.backend(), Some(BackendKind::Sled));
    assert_eq!(StorageError::InvalidKey.backend(), None);
}

#[test]
fn failed_sync_leaves_the_write_buffered() {
    let mut h = open_writable("crate");
    assert_eq!(
        h.resume(Stage::Writing(DurabilityLevel::Synced), Reply::Done),
        Action::Perform { request: Request::Sync, stage: Stage::Syncing }
    );
    assert_eq!(
        h.resume(Stage::Syncing, Reply::Failed),
        Action::Return(Err(StorageError::DurabilityFailure { backend: BackendKind::Baseline }))
    );
    assert_eq!(h.reached(), DurabilityLevel::Buffered);
}

#[test]
fn open_fails_for_an_unregistered_backend() {
    let mut registry = Registry::new();
    registry.register(BackendKind::Sled);
    let opened = EngineHandle::open(&registry, BackendKind::Fjall, "north".to_string(), writable(), fresh());
    assert_eq!(opened.err(), Some(StorageError::BackendUnavailable));
    assert_eq!(registry.resolve("fjall"), Err(StorageError::BackendUnavailable));
    assert_eq!(registry.resolve("rocks"), Err(StorageError::BackendUnavailable));
    assert_eq!(registry.resolve("sled"), Ok(BackendKind::Sled));
}

#[test]
fn open_fails_for_a_missing_location_unless_it_is_created() {
    let registry = full_registry();
    let config = OpenConfig { create_if_missing: false, read_only: false };
    let opened = EngineHandle::open(&registry, BackendKind::Sled, "south".to_string(), config, fresh());
    assert_eq!(opened.err(), Some(StorageError::NotFound));
    let opened = EngineHandle::open(&registry, BackendKind::Sled, "south".to_string(), writable(), fresh());
    assert!(opened.is_ok());
    let opened = EngineHandle::open(&registry, BackendKind::Sled, "south".to_string(), config, present());
    assert!(opened.is_ok());
}

#[test]
fn open_fails_for_a_location_that_is_held() {
    let registry = full_registry();
    let reader = OpenConfig { create_if_missing: false, read_only: true };
    let by_writer = LocationState { exists: true, holders: Holders::Writer };
    let by_readers = LocationState { exists: true, holders: Holders::Readers };
    for kind in [BackendKind::Baseline, BackendKind::Sled, BackendKind::Sqlite] {
        let opened = EngineHandle::open(&registry, kind, "east".to_string(), writable(), by_writer);
        assert_eq!(opened.err(), Some(StorageError::LocationBusy));
        let opened = EngineHandle::open(&registry, kind, "east".to_string(), reader, by_writer);
        assert_eq!(opened.err(), Some(StorageError::LocationBusy));
        let opened = EngineHandle::open(&registry, kind, "east".to_string(), writable(), by_readers);
        assert_eq!(opened.err(), Some(StorageError::LocationBusy));
    }
    let shared = EngineHandle::open(&registry, BackendKind::Sqlite, "east".to_string(), reader, by_readers);
    assert!(shared.is_ok());
    let denied = EngineHandle::open(&registry, BackendKind::Sled, "east".to_string(), reader, by_readers);
    assert_eq!(denied.err(), Some(StorageError::LocationBusy));
}

#[test]
fn open_reports_the_first_refusal() {
    let registry = Registry::new();
    let config = OpenConfig { create_if_missing: false, read_only: false };
    let state = LocationState { exists: false, holders: Holders::Writer };
    let opened = EngineHandle::open(&registry, BackendKind::Sled, "west".to_string(), config, state);
    assert_eq!(opened.err(), Some(StorageError::BackendUnavailable));
    let opened = EngineHandle::open(&full_registry(), BackendKind::Sled, "west".to_string(), config, state);
    assert_eq!(opened.err(), Some(StorageError::NotFound));
}

#[test]
fn holders_are_read_from_the_open_handles() {
    let mut open: Vec<Holding> = Vec::new();
    assert_eq!(holders_of(&open, "a"), Holders::Nobody);
    open.push(Holding { location: "a".to_string(), read_only: true });
    open.push(Holding { location: "b".to_string(), read_only: false });
    assert_eq!(holders_of(&open, "a"), Holders::Readers);
    assert_eq!(holders_of(&open, "b"), Holders::Writer);
    assert_eq!(holders_of(&open, "c"), Holders::Nobody);
    open.push(Holding { location: "a".to_string(), read_only: true });
    assert_eq!(holders_of(&open, "a"), Holders::Readers);
    open.push(Holding { location: "a".to_string(), read_only: false });
    assert_eq!(holders_of(&open, "a"), Holders::Writer);
}

#[test]
fn a_writer_keeps_its_location_to_itself() {
    let registry = full_registry();
    let writer = OpenConfig { create_if_missing: true, read_only: false };
    let reader = OpenConfig { create_if_missing: true, read_only: true };
    let mut open = OpenLocations::new();
    assert_eq!(open.holders("a"), Holders::Nobody);

    let first = open.open(&registry, BackendKind::Sqlite, "a", writer, false);
    assert!(first.is_ok());
    assert_eq!(open.holders("a"), Holders::Writer);
    assert_eq!(open.open(&registry, BackendKind::Sqlite, "a", writer, true).err(), Some(StorageError::LocationBusy));
    assert_eq!(open.open(&registry, BackendKind::Sqlite, "a", reader, true).err(), Some(StorageError::LocationBusy));
    assert_eq!(open.len(), 1);

    assert!(open.open(&registry, BackendKind::Sqlite, "b", reader, false).is_ok());
    assert!(open.open(&registry, BackendKind::Sqlite, "b", reader, true).is_ok());
    assert_eq!(open.holders("b"), Holders::Readers);
    assert_eq!(open.open(&registry, BackendKind::Sqlite, "b", writer, true).err(), Some(StorageError::LocationBusy));
    assert_eq!(open.open(&registry, BackendKind::Sled, "b", reader, true).err(), Some(StorageError::LocationBusy));
    assert_eq!(open.len(), 3);

    assert!(!open.strike("a", true));
    assert!(open.strike("a", false));
    assert!(!open.strike("a", false));
    assert_eq!(open.holders("a"), Holders::Nobody);
    assert!(open.open(&registry, BackendKind::Sqlite, "a", reader, true).is_ok());
    assert!(open.strike("b", true));
    assert_eq!(open.holders("b"), Holders::Readers);
    assert!(open.strike("b", true));
    assert_eq!(open.holders("b"), Holders::Nobody);
    assert_eq!(open.len(), 1);
}

#[test]
fn open_beside_others_fails_as_open_does() {
    let mut open = OpenLocations::new();
    let config = OpenConfig { create_if_missing: false, read_only: false };
    assert_eq!(
        open.open(&Registry::new(), BackendKind::Sled, "a", config, true).err(),
        Some(StorageError::BackendUnavailable)
    );
    assert_eq!(open.open(&full_registry(), BackendKind::Sled, "a", config, false).err(), Some(StorageError::NotFound));
    assert_eq!(open.len(), 0);
    let handle = open.open(&full_registry(), BackendKind::Sled, "a", config, true).unwrap();
    assert_eq!(handle.location(), "a");
    assert_eq!(handle.kind(), BackendKind::Sled);
    assert!(handle.is_open() && !handle.is_read_only());
}
