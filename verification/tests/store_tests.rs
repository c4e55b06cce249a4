use resp_kv::db::{Database, Value};
use resp_kv::rdb::RdbReader;
use resp_kv::store::{Store, StoreError};

#[test]
fn set_then_get_returns_the_value() {
    let mut store = Store::new();
    store
        .db_set(0, b"foo".to_vec(), Value { value: b"bar".to_vec(), expiry: None })
        .unwrap();
    let got = store.db_get(0, &b"foo".to_vec(), 0).unwrap();
    assert_eq!(got, Some(b"bar".to_vec()));
}

#[test]
fn set_replaces_an_existing_entry() {
    let mut store = Store::new();
    store
        .db_set(0, b"k".to_vec(), Value { value: b"one".to_vec(), expiry: None })
        .unwrap();
    store
        .db_set(0, b"k".to_vec(), Value { value: b"two".to_vec(), expiry: None })
        .unwrap();
    assert_eq!(store.db_get(0, &b"k".to_vec(), 0).unwrap(), Some(b"two".to_vec()));
    let keys = store.db_list_keys(0).unwrap();
    assert_eq!(keys.len(), 1);
}

#[test]
fn expiry_is_a_strict_deadline() {
    // Set at 5000 with a 100 ms life: readable up to 5099, gone at 5100.
    let mut store = Store::new();
    store
        .db_set(0, b"k".to_vec(), Value { value: b"v".to_vec(), expiry: Some(5_100) })
        .unwrap();
    assert_eq!(store.db_get(0, &b"k".to_vec(), 5_000).unwrap(), Some(b"v".to_vec()));
    assert_eq!(store.db_get(0, &b"k".to_vec(), 5_099).unwrap(), Some(b"v".to_vec()));
    assert_eq!(store.db_get(0, &b"k".to_vec(), 5_100).unwrap(), None);
}

#[test]
fn lazy_expiry_is_idempotent_and_leaves_the_key_absent() {
    let mut store = Store::new();
    store
        .db_set(0, b"k".to_vec(), Value { value: b"v".to_vec(), expiry: Some(10) })
        .unwrap();
    // Two reads past the deadline both miss; the entry is gone, so even
    // a read at an earlier clock still misses.
    assert_eq!(store.db_get(0, &b"k".to_vec(), 10).unwrap(), None);
    assert_eq!(store.db_get(0, &b"k".to_vec(), 10).unwrap(), None);
    assert_eq!(store.db_get(0, &b"k".to_vec(), 0).unwrap(), None);
}

#[test]
fn listing_keys_does_not_force_expiry() {
    let mut store = Store::new();
    store
        .db_set(0, b"dead".to_vec(), Value { value: b"v".to_vec(), expiry: Some(1) })
        .unwrap();
    store
        .db_set(0, b"live".to_vec(), Value { value: b"v".to_vec(), expiry: None })
        .unwrap();
    let mut keys = store.db_list_keys(0).unwrap();
    keys.sort();
    assert_eq!(keys, vec![b"dead".to_vec(), b"live".to_vec()]);
}

#[test]
fn an_out_of_range_database_is_refused() {
    let mut store = Store::new();
    assert_eq!(
        store.db_get(16, &b"k".to_vec(), 0),
        Err(StoreError::DatabaseNotFound)
    );
    assert!(matches!(
        store.db_set(16, b"k".to_vec(), Value { value: vec![], expiry: None }),
        Err(StoreError::DatabaseNotFound)
    ));
    assert!(matches!(store.db_list_keys(16), Err(StoreError::DatabaseNotFound)));
    // Database 15 is the last one in range.
    assert!(store.db_set(15, b"k".to_vec(), Value { value: vec![], expiry: None }).is_ok());
}

#[test]
fn databases_are_independent() {
    let mut store = Store::new();
    store
        .db_set(1, b"k".to_vec(), Value { value: b"one".to_vec(), expiry: None })
        .unwrap();
    assert_eq!(store.db_get(0, &b"k".to_vec(), 0).unwrap(), None);
    assert_eq!(store.db_get(1, &b"k".to_vec(), 0).unwrap(), Some(b"one".to_vec()));
}

#[test]
fn loading_a_snapshot_clears_and_fills_the_store() {
    // REDIS0003 (version below 5: no trailing checksum), select db 2,
    // millisecond expiry on the second key.
    let mut file = b"REDIS0003".to_vec();
    file.push(0xFE);
    file.push(0x02);
    file.extend_from_slice(&[0x00, 0x03]);
    file.extend_from_slice(b"foo");
    file.push(0x03);
    file.extend_from_slice(b"bar");
    file.push(0xFC);
    file.extend_from_slice(&7_000u64.to_le_bytes());
    file.extend_from_slice(&[0x00, 0x01]);
    file.extend_from_slice(b"t");
    file.push(0x01);
    file.extend_from_slice(b"x");
    file.push(0xFF);
    let data = RdbReader::read(&file).expect("snapshot decodes");

    let mut store = Store::new();
    store
        .db_set(0, b"old".to_vec(), Value { value: b"gone".to_vec(), expiry: None })
        .unwrap();
    store.db_load(&data).unwrap();

    assert_eq!(store.db_get(0, &b"old".to_vec(), 0).unwrap(), None);
    assert_eq!(store.db_get(2, &b"foo".to_vec(), 0).unwrap(), Some(b"bar".to_vec()));
    assert_eq!(store.db_get(2, &b"t".to_vec(), 6_999).unwrap(), Some(b"x".to_vec()));
    assert_eq!(store.db_get(2, &b"t".to_vec(), 7_000).unwrap(), None);
}

#[test]
fn the_standalone_database_behaves_like_one_store_slot() {
    let mut db = Database::new();
    db.set(b"a".to_vec(), Value { value: b"1".to_vec(), expiry: Some(50) });
    assert_eq!(db.get(&b"a".to_vec(), 49), Some(b"1".to_vec()));
    db.delete_key_if_expired(&b"a".to_vec(), 49);
    assert_eq!(db.get(&b"a".to_vec(), 49), Some(b"1".to_vec()));
    db.delete_key_if_expired(&b"a".to_vec(), 50);
    assert_eq!(db.get(&b"a".to_vec(), 0), None);
    assert_eq!(db.keys().len(), 0);
}
