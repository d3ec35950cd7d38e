use memory_db::{DataCategory, DatabaseError, Storage};

const ALL: [DataCategory; 6] = [
    DataCategory::Block,
    DataCategory::Transaction,
    DataCategory::Receipt,
    DataCategory::State,
    DataCategory::TransactionPool,
    DataCategory::TransactionPosition,
];

#[test]
fn test_new_store_holds_nothing() {
    let db = Storage::new();
    for c in ALL {
        assert_eq!(db.get(c, b"k"), None);
        assert_eq!(db.get(c, b""), None);
        assert!(!db.contains(c, b"k"));
    }
}

#[test]
fn test_default_store_holds_nothing() {
    let db = Storage::default();
    assert_eq!(db.get(DataCategory::State, b"k"), None);
    assert!(!db.contains(DataCategory::State, b"k"));
}

#[test]
fn test_round_trip_in_every_category() {
    for c in ALL {
        let mut db = Storage::new();
        db.insert(c, vec![0, 255, 7], vec![1, 2, 3, 0]);
        assert_eq!(db.get(c, &[0, 255, 7]), Some(vec![1, 2, 3, 0]));
        assert!(db.contains(c, &[0, 255, 7]));
    }
}

#[test]
fn test_insert_overwrites() {
    let mut db = Storage::new();
    db.insert(DataCategory::State, b"k".to_vec(), b"old".to_vec());
    db.insert(DataCategory::State, b"k".to_vec(), b"new".to_vec());
    assert_eq!(db.get(DataCategory::State, b"k"), Some(b"new".to_vec()));
    db.remove(DataCategory::State, b"k");
    assert_eq!(db.get(DataCategory::State, b"k"), None);
}

#[test]
fn test_empty_key_and_empty_value() {
    let mut db = Storage::new();
    db.insert(DataCategory::Receipt, Vec::new(), Vec::new());
    assert_eq!(db.get(DataCategory::Receipt, b""), Some(Vec::new()));
    assert!(db.contains(DataCategory::Receipt, b""));
    assert!(!db.contains(DataCategory::Block, b""));
}

#[test]
fn test_remove_leaves_record_absent() {
    let mut db = Storage::new();
    db.insert(DataCategory::Block, b"test".to_vec(), b"test".to_vec());
    db.remove(DataCategory::Block, b"test");
    assert_eq!(db.get(DataCategory::Block, b"test"), None);
    assert!(!db.contains(DataCategory::Block, b"test"));
}

#[test]
fn test_remove_absent_key_changes_nothing() {
    let mut db = Storage::new();
    db.remove(DataCategory::Block, b"missing");
    assert!(!db.contains(DataCategory::Block, b"missing"));
    db.insert(DataCategory::Block, b"kept".to_vec(), b"v".to_vec());
    db.remove(DataCategory::Block, b"missing");
    db.remove(DataCategory::Block, b"missing");
    assert_eq!(db.get(DataCategory::Block, b"kept"), Some(b"v".to_vec()));
}

#[test]
fn test_remove_keeps_other_records() {
    let mut db = Storage::new();
    db.insert(DataCategory::Block, b"a".to_vec(), b"1".to_vec());
    db.insert(DataCategory::Block, b"b".to_vec(), b"2".to_vec());
    db.insert(DataCategory::Block, b"c".to_vec(), b"3".to_vec());
    db.remove(DataCategory::Block, b"a");
    assert_eq!(db.get(DataCategory::Block, b"a"), None);
    assert_eq!(db.get(DataCategory::Block, b"b"), Some(b"2".to_vec()));
    assert_eq!(db.get(DataCategory::Block, b"c"), Some(b"3".to_vec()));
    db.remove(DataCategory::Block, b"c");
    assert_eq!(db.get(DataCategory::Block, b"b"), Some(b"2".to_vec()));
    assert_eq!(db.get(DataCategory::Block, b"c"), None);
}

#[test]
fn test_insert_batch_stores_each_pair() {
    let mut db = Storage::new();
    let r = db.insert_batch(
        DataCategory::Block,
        vec![b"t1".to_vec(), b"t2".to_vec()],
        vec![b"v1".to_vec(), b"v2".to_vec()],
    );
    assert_eq!(r, Ok(()));
    assert_eq!(db.get(DataCategory::Block, b"t1"), Some(b"v1".to_vec()));
    assert_eq!(db.get(DataCategory::Block, b"t2"), Some(b"v2".to_vec()));
}

#[test]
fn test_insert_batch_length_mismatch_is_invalid_data() {
    let mut db = Storage::new();
    assert_eq!(db.get(DataCategory::Block, b"a"), None);
    let r = db.insert_batch(
        DataCategory::Block,
        vec![b"a".to_vec()],
        vec![b"v1".to_vec(), b"v2".to_vec()],
    );
    assert_eq!(r, Err(DatabaseError::InvalidData));
    assert_eq!(db.get(DataCategory::Block, b"a"), None);
}

#[test]
fn test_insert_batch_length_mismatch_leaves_store_unchanged() {
    let mut db = Storage::new();
    db.insert(DataCategory::Block, b"a".to_vec(), b"old".to_vec());
    let keys = vec![b"a".to_vec(), b"b".to_vec(), b"c".to_vec()];
    let before = db.get_batch(DataCategory::Block, &keys);
    assert_eq!(before, vec![Some(b"old".to_vec()), None, None]);
    let r = db.insert_batch(DataCategory::Block, keys.clone(), vec![b"x".to_vec(), b"y".to_vec()]);
    assert_eq!(r, Err(DatabaseError::InvalidData));
    assert_eq!(db.get_batch(DataCategory::Block, &keys), before);
    let r = db.insert_batch(DataCategory::Block, Vec::new(), vec![b"x".to_vec()]);
    assert_eq!(r, Err(DatabaseError::InvalidData));
    assert_eq!(db.get_batch(DataCategory::Block, &keys), before);
}

#[test]
fn test_insert_batch_later_duplicate_wins() {
    let mut db = Storage::new();
    db.insert(DataCategory::State, b"k".to_vec(), b"zero".to_vec());
    let r = db.insert_batch(
        DataCategory::State,
        vec![b"k".to_vec(), b"other".to_vec(), b"k".to_vec()],
        vec![b"first".to_vec(), b"o".to_vec(), b"second".to_vec()],
    );
    assert_eq!(r, Ok(()));
    assert_eq!(db.get(DataCategory::State, b"k"), Some(b"second".to_vec()));
    assert_eq!(db.get(DataCategory::State, b"other"), Some(b"o".to_vec()));
}

#[test]
fn test_insert_batch_of_nothing() {
    let mut db = Storage::new();
    db.insert(DataCategory::State, b"k".to_vec(), b"v".to_vec());
    assert_eq!(db.insert_batch(DataCategory::State, Vec::new(), Vec::new()), Ok(()));
    assert_eq!(db.get(DataCategory::State, b"k"), Some(b"v".to_vec()));
}

#[test]
fn test_get_batch_keeps_order_and_answers_each_key() {
    let mut db = Storage::new();
    db.insert(DataCategory::Block, b"k1".to_vec(), b"v1".to_vec());
    let got = db.get_batch(DataCategory::Block, &[b"k1".to_vec(), b"k2".to_vec()]);
    assert_eq!(got, vec![Some(b"v1".to_vec()), None]);
    let got = db.get_batch(DataCategory::Block, &[b"k2".to_vec(), b"k1".to_vec(), b"k1".to_vec()]);
    assert_eq!(got, vec![None, Some(b"v1".to_vec()), Some(b"v1".to_vec())]);
    let got = db.get_batch(DataCategory::Block, &[]);
    assert_eq!(got, Vec::<Option<Vec<u8>>>::new());
}

#[test]
fn test_remove_batch_removes_only_what_is_named() {
    let mut db = Storage::new();
    db.insert(DataCategory::Block, b"a".to_vec(), b"1".to_vec());
    db.insert(DataCategory::Block, b"b".to_vec(), b"2".to_vec());
    db.insert(DataCategory::Block, b"c".to_vec(), b"3".to_vec());
    db.insert(DataCategory::Receipt, b"a".to_vec(), b"4".to_vec());
    db.remove_batch(
        DataCategory::Block,
        &[b"a".to_vec(), b"missing".to_vec(), b"c".to_vec(), b"a".to_vec()],
    );
    assert_eq!(db.get(DataCategory::Block, b"a"), None);
    assert_eq!(db.get(DataCategory::Block, b"b"), Some(b"2".to_vec()));
    assert_eq!(db.get(DataCategory::Block, b"c"), None);
    assert_eq!(db.get(DataCategory::Block, b"missing"), None);
    assert_eq!(db.get(DataCategory::Receipt, b"a"), Some(b"4".to_vec()));
    db.remove_batch(DataCategory::Block, &[]);
    assert_eq!(db.get(DataCategory::Block, b"b"), Some(b"2".to_vec()));
}

#[test]
fn test_same_key_in_two_categories_does_not_collide() {
    let mut db = Storage::new();
    db.insert(DataCategory::Block, b"x".to_vec(), b"a".to_vec());
    db.insert(DataCategory::Receipt, b"x".to_vec(), b"b".to_vec());
    assert_eq!(db.get(DataCategory::Block, b"x"), Some(b"a".to_vec()));
    assert_eq!(db.get(DataCategory::Receipt, b"x"), Some(b"b".to_vec()));
    db.remove(DataCategory::Receipt, b"x");
    assert_eq!(db.get(DataCategory::Block, b"x"), Some(b"a".to_vec()));
    assert_eq!(db.get(DataCategory::Receipt, b"x"), None);
}

#[test]
fn test_same_key_in_every_pair_of_categories_does_not_collide() {
    let mut db = Storage::new();
    for (i, c) in ALL.iter().enumerate() {
        db.insert(*c, b"x".to_vec(), vec![i as u8]);
    }
    for (i, c) in ALL.iter().enumerate() {
        assert_eq!(db.get(*c, b"x"), Some(vec![i as u8]));
    }
    db.remove(DataCategory::Transaction, b"x");
    assert_eq!(db.get(DataCategory::Transaction, b"x"), None);
    assert_eq!(db.get(DataCategory::TransactionPool, b"x"), Some(vec![4]));
    assert_eq!(db.get(DataCategory::TransactionPosition, b"x"), Some(vec![5]));
}

#[test]
fn test_overlapping_prefixes_share_records() {
    let mut db = Storage::new();
    db.insert(DataCategory::Transaction, b"pool-x".to_vec(), b"v".to_vec());
    assert_eq!(db.get(DataCategory::TransactionPool, b"x"), Some(b"v".to_vec()));
    db.insert(DataCategory::TransactionPosition, b"y".to_vec(), b"w".to_vec());
    assert_eq!(db.get(DataCategory::Transaction, b"position-y"), Some(b"w".to_vec()));
    db.remove(DataCategory::TransactionPool, b"x");
    assert!(!db.contains(DataCategory::Transaction, b"pool-x"));
}

#[test]
fn test_disjoint_prefixes_never_share_records() {
    let mut db = Storage::new();
    db.insert(DataCategory::Block, b"state-x".to_vec(), b"v".to_vec());
    assert_eq!(db.get(DataCategory::State, b"x"), None);
    assert_eq!(db.get(DataCategory::State, b"state-x"), None);
    db.insert(DataCategory::Receipt, b"block-x".to_vec(), b"v".to_vec());
    assert_eq!(db.get(DataCategory::Block, b"x"), None);
}
