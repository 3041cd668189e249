use newsmaw::{
    decode_record, persist_records, write_to_db, NewsData, ReadError, Store, SwarmAPI,
};

fn record(title: &str) -> NewsData {
    NewsData {
        title: title.to_string(),
        authors: None,
        timestamp_published: None,
        timestamp_updated: None,
        byline: None,
        content: "body".to_string(),
        tags: vec!["t".to_string()],
        version: 1,
    }
}

#[test]
fn healthcheck_always_reports_healthy() {
    let api = SwarmAPI { database: Store::open_temporary().expect("temporary store opens") };
    let r = api.healthcheck();
    assert!(r.is_healthy);
    assert_eq!(r.message, "healthy");
}

#[test]
fn write_echoes_new_data_then_returns_previous_value() {
    let store = Store::open_temporary().expect("temporary store opens");
    let mut api = SwarmAPI { database: store };
    let first = api.write_data(b"42".to_vec(), "hello".to_string());
    assert!(first.was_successful);
    assert_eq!(first.reply, "hello");
    let second = api.write_data(b"42".to_vec(), "world".to_string());
    assert!(second.was_successful);
    assert_eq!(second.reply, "hello");
    let read = api.read_data(&b"42".to_vec());
    assert_eq!(read, Ok("world".to_string()));
}

#[test]
fn write_to_db_returns_previous_raw_bytes() {
    let mut store = Store::open_temporary().expect("temporary store opens");
    let first = write_to_db(&mut store, "k1".to_string(), "old".to_string());
    assert_eq!(first, Ok(None));
    let second = write_to_db(&mut store, "k1".to_string(), "new".to_string());
    assert_eq!(second, Ok(Some(b"old".to_vec())));
}

#[test]
fn read_of_absent_key_is_not_found() {
    let api = SwarmAPI { database: Store::open_temporary().expect("temporary store opens") };
    assert_eq!(api.read_data(&b"missing".to_vec()), Err(ReadError::NotFound));
}

#[test]
fn read_of_non_text_value_is_corrupt() {
    let mut store = Store::open_temporary().expect("temporary store opens");
    let raw: Vec<u8> = vec![0xff, 0xfe, 0xfd];
    store.insert(&b"k".to_vec(), &raw).expect("insert works");
    let api = SwarmAPI { database: store };
    assert_eq!(api.read_data(&b"k".to_vec()), Err(ReadError::Corrupt));
}

#[test]
fn batch_persist_adds_two_then_overwrites() {
    let mut store = Store::open_temporary().expect("temporary store opens");
    assert_eq!(store.entry_count(), 0);
    let batch = vec![
        ("1".to_string(), record("first")),
        ("2".to_string(), record("second")),
    ];
    persist_records(&mut store, &batch).expect("persist succeeds");
    assert_eq!(store.entry_count(), 2);
    persist_records(&mut store, &batch).expect("persist succeeds again");
    assert_eq!(store.entry_count(), 2);
}

#[test]
fn persisted_records_decode_back() {
    let mut store = Store::open_temporary().expect("temporary store opens");
    let batch = vec![("1".to_string(), record("first"))];
    persist_records(&mut store, &batch).expect("persist succeeds");
    let stored = store
        .get(&b"1".to_vec())
        .expect("get works")
        .expect("key 1 is present");
    let back = decode_record(&stored).expect("stored bytes decode");
    assert!(back == batch[0].1);
}

#[test]
fn persist_of_empty_batch_changes_nothing() {
    let mut store = Store::open_temporary().expect("temporary store opens");
    persist_records(&mut store, &Vec::new()).expect("empty persist succeeds");
    assert_eq!(store.entry_count(), 0);
}
