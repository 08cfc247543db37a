use simperby_storage::hash::Hash256;
use simperby_storage::memory::MemoryDB;
use simperby_storage::storage::StorageError;

/// A key made of the bytes of `name`, padded with zeroes.
fn key(name: &str) -> Hash256 {
    let mut hash = [0u8; 32];
    for (i, b) in name.bytes().take(32).enumerate() {
        hash[i] = b;
    }
    Hash256 { hash }
}

fn init() -> MemoryDB {
    let mut db = MemoryDB::new();
    insert_or_update_handler(&mut db, "1", b"1");
    insert_or_update_handler(&mut db, "2", b"2");
    insert_or_update_handler(&mut db, "3", b"3");
    insert_or_update_handler(&mut db, "4", b"4");
    db
}

fn get_from_checkpoint(db: &MemoryDB, name: &str, value: &[u8]) -> bool {
    match db.get_from_checkpoint(key(name)) {
        Some(v) => v == value,
        None => false,
    }
}

fn get_from_db(db: &MemoryDB, name: &str, value: &[u8]) -> bool {
    match db.get(key(name)) {
        Ok(v) => v == value,
        Err(_) => false,
    }
}

fn insert_or_update_handler(db: &mut MemoryDB, name: &str, value: &[u8]) {
    db.insert_or_update(key(name), value).unwrap()
}

fn commit_checkpoint_handler(db: &mut MemoryDB) {
    db.commit_checkpoint().unwrap();
}

fn revert_checkpoint_handler(db: &mut MemoryDB) {
    db.revert_to_latest_checkpoint().unwrap();
}

#[test]
fn get_from_empty_db() {
    let db = MemoryDB::new();
    assert_eq!(db.get(key("1")), Err(StorageError::NotFound));
}

#[test]
fn get_from_empty_checkpoint() {
    let db = MemoryDB::new();
    assert_eq!(db.get_from_checkpoint(key("1")), None);
}

#[test]
fn get_from_init_db() {
    let db = init();
    assert!(get_from_db(&db, "1", b"1"));
    assert!(get_from_db(&db, "2", b"2"));
    assert!(get_from_db(&db, "3", b"3"));
    assert!(get_from_db(&db, "4", b"4"));
    assert!(!get_from_db(&db, "5", b"5"));
}

#[test]
fn commit_checkpoint_once() {
    let mut db = init();
    commit_checkpoint_handler(&mut db);
    assert!(get_from_checkpoint(&db, "1", b"1"));
    assert!(get_from_checkpoint(&db, "2", b"2"));
    assert!(get_from_checkpoint(&db, "3", b"3"));
    assert!(get_from_checkpoint(&db, "4", b"4"));
    assert!(!get_from_checkpoint(&db, "5", b"5"));
}

#[test]
fn revert_checkpoint_once() {
    let mut db = init();
    commit_checkpoint_handler(&mut db);
    insert_or_update_handler(&mut db, "5", b"5");
    assert!(get_from_db(&db, "5", b"5"));
    revert_checkpoint_handler(&mut db);
    assert!(!get_from_db(&db, "5", b"5"));
}

#[test]
fn contain_on_empty_db_is_false() {
    let db = MemoryDB::new();
    assert_eq!(db.contain(key("1")), Ok(false));
    assert_eq!(db.contain(key("")), Ok(false));
}

#[test]
fn end_to_end() {
    let mut db = init();
    for name in ["1", "2", "3", "4"] {
        assert_eq!(db.contain(key(name)), Ok(true));
        assert_eq!(db.get(key(name)), Ok(name.as_bytes().to_vec()));
    }
    assert_eq!(db.contain(key("5")), Ok(false));
    commit_checkpoint_handler(&mut db);
    insert_or_update_handler(&mut db, "5", b"5");
    assert!(get_from_db(&db, "5", b"5"));
    assert!(!get_from_checkpoint(&db, "5", b"5"));
    revert_checkpoint_handler(&mut db);
    assert!(!get_from_db(&db, "5", b"5"));
    assert_eq!(db.get(key("5")), Err(StorageError::NotFound));
    assert!(get_from_db(&db, "4", b"4"));
}

#[test]
fn insert_then_get_and_contain() {
    let mut db = MemoryDB::new();
    assert_eq!(db.insert_or_update(key("a"), b"first"), Ok(()));
    assert_eq!(db.get(key("a")), Ok(b"first".to_vec()));
    assert_eq!(db.contain(key("a")), Ok(true));
    insert_or_update_handler(&mut db, "b", b"other");
    assert_eq!(db.get(key("a")), Ok(b"first".to_vec()));
}

#[test]
fn update_replaces_value() {
    let mut db = MemoryDB::new();
    insert_or_update_handler(&mut db, "a", b"first");
    insert_or_update_handler(&mut db, "a", b"second");
    assert_eq!(db.get(key("a")), Ok(b"second".to_vec()));
    assert_eq!(db.remove(key("a")), Ok(()));
    assert_eq!(db.contain(key("a")), Ok(false));
}

#[test]
fn empty_value_round_trips() {
    let mut db = MemoryDB::new();
    insert_or_update_handler(&mut db, "a", b"");
    assert_eq!(db.get(key("a")), Ok(Vec::new()));
    assert_eq!(db.contain(key("a")), Ok(true));
}

#[test]
fn remove_present_key() {
    let mut db = init();
    assert_eq!(db.remove(key("2")), Ok(()));
    assert_eq!(db.get(key("2")), Err(StorageError::NotFound));
    assert_eq!(db.contain(key("2")), Ok(false));
    assert!(get_from_db(&db, "1", b"1"));
    assert!(get_from_db(&db, "3", b"3"));
    assert!(get_from_db(&db, "4", b"4"));
}

#[test]
fn remove_absent_key_is_not_found() {
    let mut db = init();
    assert_eq!(db.remove(key("5")), Err(StorageError::NotFound));
    assert!(get_from_db(&db, "1", b"1"));
    assert!(get_from_db(&db, "4", b"4"));
    let mut empty = MemoryDB::new();
    assert_eq!(empty.remove(key("1")), Err(StorageError::NotFound));
}

#[test]
fn remove_leaves_checkpoint() {
    let mut db = init();
    commit_checkpoint_handler(&mut db);
    assert_eq!(db.remove(key("1")), Ok(()));
    assert!(get_from_checkpoint(&db, "1", b"1"));
    assert!(!get_from_db(&db, "1", b"1"));
}

#[test]
fn revert_restores_removed_and_updated_keys() {
    let mut db = init();
    commit_checkpoint_handler(&mut db);
    assert_eq!(db.remove(key("1")), Ok(()));
    insert_or_update_handler(&mut db, "2", b"changed");
    insert_or_update_handler(&mut db, "9", b"9");
    revert_checkpoint_handler(&mut db);
    assert!(get_from_db(&db, "1", b"1"));
    assert!(get_from_db(&db, "2", b"2"));
    assert!(get_from_db(&db, "3", b"3"));
    assert!(get_from_db(&db, "4", b"4"));
    assert_eq!(db.contain(key("9")), Ok(false));
}

#[test]
fn revert_without_commit_empties_the_store() {
    let mut db = init();
    revert_checkpoint_handler(&mut db);
    for name in ["1", "2", "3", "4"] {
        assert_eq!(db.get(key(name)), Err(StorageError::NotFound));
    }
}

#[test]
fn second_commit_replaces_first_checkpoint() {
    let mut db = MemoryDB::new();
    insert_or_update_handler(&mut db, "a", b"1");
    commit_checkpoint_handler(&mut db);
    insert_or_update_handler(&mut db, "a", b"2");
    insert_or_update_handler(&mut db, "b", b"3");
    commit_checkpoint_handler(&mut db);
    insert_or_update_handler(&mut db, "a", b"4");
    assert_eq!(db.remove(key("b")), Ok(()));
    revert_checkpoint_handler(&mut db);
    assert_eq!(db.get(key("a")), Ok(b"2".to_vec()));
    assert_eq!(db.get(key("b")), Ok(b"3".to_vec()));
    revert_checkpoint_handler(&mut db);
    assert_eq!(db.get(key("a")), Ok(b"2".to_vec()));
}

#[test]
fn open_gives_an_independent_copy() {
    let mut db = init();
    commit_checkpoint_handler(&mut db);
    let mut other = db.open();
    insert_or_update_handler(&mut other, "5", b"5");
    assert_eq!(other.remove(key("1")), Ok(()));
    assert_eq!(db.contain(key("5")), Ok(false));
    assert!(get_from_db(&db, "1", b"1"));
    assert!(get_from_db(&other, "5", b"5"));
    assert!(get_from_checkpoint(&other, "1", b"1"));
    insert_or_update_handler(&mut db, "6", b"6");
    assert_eq!(other.contain(key("6")), Ok(false));
}

#[test]
fn keys_differing_in_last_byte_are_distinct() {
    let mut a = [7u8; 32];
    let mut b = [7u8; 32];
    a[31] = 1;
    b[31] = 2;
    let mut db = MemoryDB::new();
    db.insert_or_update(Hash256 { hash: a }, b"a").unwrap();
    db.insert_or_update(Hash256 { hash: b }, b"b").unwrap();
    assert_eq!(db.get(Hash256 { hash: a }), Ok(b"a".to_vec()));
    assert_eq!(db.get(Hash256 { hash: b }), Ok(b"b".to_vec()));
    assert!(!Hash256 { hash: a }.same(&Hash256 { hash: b }));
    assert!(Hash256 { hash: a }.same(&Hash256 { hash: a }));
}

#[test]
fn storage_error_messages() {
    assert_eq!(StorageError::NotFound.message(), "not found");
    assert_eq!(
        StorageError::Unknown("disk".to_string()).message(),
        "unknown error: disk"
    );
}

#[test]
fn digests_are_ordered_by_their_bytes() {
    let mut low = [0u8; 32];
    let mut high = [0u8; 32];
    low[31] = 0xff;
    high[0] = 1;
    assert!(Hash256 { hash: low } < Hash256 { hash: high });
    assert!(Hash256 { hash: [0u8; 32] } < Hash256 { hash: low });
    assert_eq!(Hash256 { hash: low }, Hash256 { hash: low });
    assert_ne!(Hash256 { hash: low }, Hash256 { hash: high });
}
