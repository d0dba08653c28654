use std::collections::BTreeMap;
use std::ops::Bound;
use storage_engine::sql::{schema, statement_for};
use storage_engine::{
    Action, BackendKind, Completion, DurabilityLevel, EngineHandle, Holders, KeyRange, LocationState, OpenConfig,
    Record, Registry, Reply, Request, StorageError,
};

fn bounds(range: &KeyRange) -> (Bound<Vec<u8>>, Bound<Vec<u8>>) {
    let start = match &range.start {
        Some(start) => Bound::Included(start.clone()),
        None => Bound::Unbounded,
    };
    let end = match &range.end {
        Some(end) => Bound::Excluded(end.clone()),
        None => Bound::Unbounded,
    };
    (start, end)
}

fn sled_reply(db: &sled::Db, request: Request) -> Result<Reply, sled::Error> {
    Ok(match request {
        Request::Read { key } => Reply::Value(db.get(key)?.map(|value| value.to_vec())),
        Request::Write { key, value } => {
            db.insert(key, value)?;
            Reply::Done
        }
        Request::Remove { key } => {
            db.remove(key)?;
            Reply::Done
        }
        Request::List { range } => {
            let mut listing = Vec::new();
            for item in db.range::<Vec<u8>, _>(bounds(&range)) {
                let (key, value) = item?;
                listing.push(Record { key: key.to_vec(), value: value.to_vec() });
            }
            Reply::Records(listing)
        }
        Request::Flush | Request::Sync | Request::Release => {
            db.flush()?;
            Reply::Done
        }
    })
}

fn fjall_reply(
    keyspace: &fjall::Keyspace,
    items: &fjall::PartitionHandle,
    request: Request,
) -> Result<Reply, fjall::Error> {
    Ok(match request {
        Request::Read { key } => Reply::Value(items.get(key)?.map(|value| value.to_vec())),
        Request::Write { key, value } => {
            items.insert(key, value)?;
            Reply::Done
        }
        Request::Remove { key } => {
            items.remove(key)?;
            Reply::Done
        }
        Request::List { range } => {
            let mut listing = Vec::new();
            for item in items.range::<Vec<u8>, _>(bounds(&range)) {
                let (key, value) = item?;
                listing.push(Record { key: key.to_vec(), value: value.to_vec() });
            }
            Reply::Records(listing)
        }
        Request::Flush => {
            keyspace.persist(fjall::PersistMode::Buffer)?;
            Reply::Done
        }
        Request::Sync | Request::Release => {
            keyspace.persist(fjall::PersistMode::SyncAll)?;
            Reply::Done
        }
    })
}

fn sqlite_reply(connection: &sqlite::Connection, request: Request) -> Result<Reply, sqlite::Error> {
    let reads = matches!(request, Request::Read { .. });
    let lists = matches!(request, Request::List { .. });
    let statement = match statement_for(request) {
        Some(statement) => statement,
        None => return Ok(Reply::Done),
    };
    let mut prepared = connection.prepare(statement.text)?;
    for (at, param) in statement.params.iter().enumerate() {
        prepared.bind((at + 1, param.as_slice()))?;
    }
    if reads {
        return Ok(match prepared.next()? {
            sqlite::State::Row => Reply::Value(Some(prepared.read::<Vec<u8>, _>(0)?)),
            sqlite::State::Done => Reply::Value(None),
        });
    }
    let mut listing = Vec::new();
    while let sqlite::State::Row = prepared.next()? {
        listing.push(Record { key: prepared.read::<Vec<u8>, _>(0)?, value: prepared.read::<Vec<u8>, _>(1)? });
    }
    Ok(if lists { Reply::Records(listing) } else { Reply::Done })
}

fn blob(value: libsql::Value) -> Vec<u8> {
    match value {
        libsql::Value::Blob(bytes) => bytes,
        other => panic!("the column holds {:?}", other),
    }
}

async fn libsql_reply(connection: &libsql::Connection, request: Request) -> Result<Reply, libsql::Error> {
    let reads = matches!(request, Request::Read { .. });
    let lists = matches!(request, Request::List { .. });
    let statement = match statement_for(request) {
        Some(statement) => statement,
        None => return Ok(Reply::Done),
    };
    let params: Vec<libsql::Value> = statement.params.into_iter().map(libsql::Value::Blob).collect();
    if !reads && !lists {
        connection.execute(statement.text, params).await?;
        return Ok(Reply::Done);
    }
    let mut rows = connection.query(statement.text, params).await?;
    if reads {
        return Ok(match rows.next().await? {
            Some(row) => Reply::Value(Some(blob(row.get_value(0)?))),
            None => Reply::Value(None),
        });
    }
    let mut listing = Vec::new();
    while let Some(row) = rows.next().await? {
        listing.push(Record { key: blob(row.get_value(0)?), value: blob(row.get_value(1)?) });
    }
    Ok(Reply::Records(listing))
}

fn drive(
    handle: &mut EngineHandle,
    engine: &mut dyn FnMut(Request) -> Reply,
    mut action: Action,
) -> Result<Completion, StorageError> {
    loop {
        match action {
            Action::Return(result) => return result,
            Action::Perform { request, stage } => {
                let reply = engine(request);
                action = handle.resume(stage, reply);
            }
        }
    }
}

fn open(kind: BackendKind, location: &str, exists: bool) -> EngineHandle {
    let mut registry = Registry::new();
    registry.register(kind);
    let config = OpenConfig { create_if_missing: true, read_only: false };
    let state = LocationState { exists, holders: Holders::Nobody };
    EngineHandle::open(&registry, kind, location.to_string(), config, state).unwrap()
}

fn clear(engine: &mut dyn FnMut(Request) -> Reply) {
    if let Reply::Records(listing) = engine(Request::List { range: KeyRange::all() }) {
        for record in listing {
            assert_eq!(engine(Request::Remove { key: record.key }), Reply::Done);
        }
    }
}

fn exercise(kind: BackendKind, engine: &mut dyn FnMut(Request) -> Reply) {
    clear(engine);
    let mut h = open(kind, "engine", false);

    let action = h.put(b"hello".to_vec(), b"world".to_vec(), DurabilityLevel::Synced);
    assert_eq!(drive(&mut h, engine, action), Ok(Completion::Done));
    assert_eq!(h.reached(), DurabilityLevel::Synced);
    let action = h.get(b"hello".to_vec());
    assert_eq!(drive(&mut h, engine, action), Ok(Completion::Value(Some(b"world".to_vec()))));
    let action = h.put(b"hello".to_vec(), b"again".to_vec(), DurabilityLevel::Flushed);
    assert_eq!(drive(&mut h, engine, action), Ok(Completion::Done));
    let action = h.get(b"hello".to_vec());
    assert_eq!(drive(&mut h, engine, action), Ok(Completion::Value(Some(b"again".to_vec()))));

    for _ in 0..2 {
        let action = h.delete(b"hello".to_vec());
        assert_eq!(drive(&mut h, engine, action), Ok(Completion::Done));
        let action = h.get(b"hello".to_vec());
        assert_eq!(drive(&mut h, engine, action), Ok(Completion::Value(None)));
    }

    let mut seed: u64 = 0x9e37_79b9_7f4a_7c15;
    let mut expected: BTreeMap<Vec<u8>, Vec<u8>> = BTreeMap::new();
    for n in 0..100u32 {
        seed = seed.wrapping_mul(6364136223846793005).wrapping_add(1442695040888963407);
        let length = 1 + (seed >> 60) as usize % 3;
        let key: Vec<u8> = seed.to_be_bytes()[..length].to_vec();
        let value: Vec<u8> = n.to_le_bytes().to_vec();
        expected.insert(key.clone(), value.clone());
        let action = h.put(key, value, DurabilityLevel::Buffered);
        assert_eq!(drive(&mut h, engine, action), Ok(Completion::Done));
    }
    let action = h.scan(KeyRange::all());
    let listed = match drive(&mut h, engine, action) {
        Ok(Completion::Records(listed)) => listed,
        other => panic!("scan gave {:?}", other),
    };
    for pair in listed.windows(2) {
        assert!(pair[0].key < pair[1].key);
    }
    let all: Vec<Record> = expected.iter().map(|(k, v)| Record { key: k.clone(), value: v.clone() }).collect();
    assert_eq!(listed, all);

    let range = KeyRange::between(vec![0x40], vec![0xc0]);
    let part: Vec<Record> = all.iter().filter(|r| range.contains(&r.key)).map(|r| r.clone()).collect();
    assert!(part.len() < all.len());
    let action = h.scan(range);
    assert_eq!(drive(&mut h, engine, action), Ok(Completion::Records(part)));

    let inverted = KeyRange::between(vec![0xc0], vec![0x40]);
    assert_eq!(h.scan(inverted), Action::Return(Ok(Completion::Records(vec![]))));

    let action = h.close();
    assert_eq!(drive(&mut h, engine, action), Ok(Completion::Closed { flush_failed: false }));
    assert!(!h.is_open());
}

#[test]
fn sled_keeps_the_contract() {
    let db = sled::Config::new().temporary(true).open().unwrap();
    exercise(BackendKind::Sled, &mut |request| sled_reply(&db, request).unwrap_or(Reply::Failed));
}

#[test]
fn fjall_keeps_the_contract() {
    let keyspace = fjall::Config::new("/tmp/storage_engine_fjall_contract").temporary(true).open().unwrap();
    let items = keyspace.open_partition("items", fjall::PartitionCreateOptions::default()).unwrap();
    exercise(BackendKind::Fjall, &mut |request| fjall_reply(&keyspace, &items, request).unwrap_or(Reply::Failed));
}

#[test]
fn sqlite_keeps_the_contract() {
    let connection = sqlite::open(":memory:").unwrap();
    connection.execute(schema()).unwrap();
    exercise(BackendKind::Sqlite, &mut |request| sqlite_reply(&connection, request).unwrap_or(Reply::Failed));
}

#[test]
fn sqlite_table_without_unique_keys_is_put_in_order() {
    let connection = sqlite::open(":memory:").unwrap();
    connection.execute("CREATE TABLE IF NOT EXISTS kvstore (key TEXT, value TEXT)").unwrap();
    connection.execute("INSERT INTO kvstore (key, value) VALUES (x'62', x'31')").unwrap();
    connection.execute("INSERT INTO kvstore (key, value) VALUES (x'61', x'32')").unwrap();
    connection.execute("INSERT INTO kvstore (key, value) VALUES (x'62', x'33')").unwrap();
    let mut h = open(BackendKind::Sqlite, "unordered", true);
    let action = h.scan(KeyRange::all());
    let listed = drive(&mut h, &mut |request| sqlite_reply(&connection, request).unwrap_or(Reply::Failed), action);
    let expected = vec![
        Record { key: b"a".to_vec(), value: b"2".to_vec() },
        Record { key: b"b".to_vec(), value: b"3".to_vec() },
    ];
    assert_eq!(listed, Ok(Completion::Records(expected)));
}

#[test]
fn libsql_keeps_the_contract() {
    let runtime = tokio::runtime::Builder::new_current_thread().build().unwrap();
    let database = runtime.block_on(libsql::Builder::new_local(":memory:").build()).unwrap();
    let connection = database.connect().unwrap();
    runtime.block_on(connection.execute(schema(), ())).unwrap();
    exercise(BackendKind::Libsql, &mut |request| {
        runtime.block_on(libsql_reply(&connection, request)).unwrap_or(Reply::Failed)
    });
}

fn open_sled(location: &str) -> sled::Db {
    let started = std::time::Instant::now();
    loop {
        match sled::open(location) {
            Ok(db) => return db,
            Err(error) => {
                if started.elapsed() > std::time::Duration::from_secs(10) {
                    panic!("sled could not open {}: {:?}", location, error);
                }
                std::hint::spin_loop();
            }
        }
    }
}

#[test]
fn sled_round_trip_across_reopen() {
    let location = "/tmp/storage_engine_sled_t1";
    {
        let db = open_sled(location);
        let mut engine = |request| sled_reply(&db, request).unwrap_or(Reply::Failed);
        let mut h = open(BackendKind::Sled, location, false);
        let action = h.put(b"hello".to_vec(), b"world".to_vec(), DurabilityLevel::Flushed);
        assert_eq!(drive(&mut h, &mut engine, action), Ok(Completion::Done));
        let action = h.get(b"hello".to_vec());
        assert_eq!(drive(&mut h, &mut engine, action), Ok(Completion::Value(Some(b"world".to_vec()))));
        let action = h.sync();
        assert_eq!(drive(&mut h, &mut engine, action), Ok(Completion::Done));
        let action = h.close();
        assert_eq!(drive(&mut h, &mut engine, action), Ok(Completion::Closed { flush_failed: false }));
    }
    let db = open_sled(location);
    let mut engine = |request| sled_reply(&db, request).unwrap_or(Reply::Failed);
    let mut h2 = open(BackendKind::Sled, location, true);
    let action = h2.get(b"hello".to_vec());
    assert_eq!(drive(&mut h2, &mut engine, action), Ok(Completion::Value(Some(b"world".to_vec()))));
}
