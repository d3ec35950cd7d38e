use memory_db::category::{gen_key, gen_keys, prefix_bytes};
use memory_db::error::map_rwlock_err;
use memory_db::storage::check_batch;
use memory_db::{DataCategory, DatabaseError};

#[test]
fn test_prefix_of_each_category() {
    assert_eq!(prefix_bytes(&DataCategory::Block), b"block-");
    assert_eq!(prefix_bytes(&DataCategory::Transaction), b"transaction-");
    assert_eq!(prefix_bytes(&DataCategory::Receipt), b"receipt-");
    assert_eq!(prefix_bytes(&DataCategory::State), b"state-");
    assert_eq!(prefix_bytes(&DataCategory::TransactionPool), b"transaction-pool-");
    assert_eq!(prefix_bytes(&DataCategory::TransactionPosition), b"transaction-position-");
}

#[test]
fn test_gen_key_prepends_the_prefix() {
    assert_eq!(gen_key(&DataCategory::Block, b"test"), b"block-test".to_vec());
    assert_eq!(gen_key(&DataCategory::Transaction, b"test"), b"transaction-test".to_vec());
    assert_eq!(gen_key(&DataCategory::Receipt, b"test"), b"receipt-test".to_vec());
    assert_eq!(gen_key(&DataCategory::State, b"test"), b"state-test".to_vec());
    assert_eq!(gen_key(&DataCategory::TransactionPool, b"test"), b"transaction-pool-test".to_vec());
    assert_eq!(
        gen_key(&DataCategory::TransactionPosition, b"test"),
        b"transaction-position-test".to_vec()
    );
}

#[test]
fn test_gen_key_keeps_raw_bytes() {
    assert_eq!(gen_key(&DataCategory::State, b""), b"state-".to_vec());
    assert_eq!(
        gen_key(&DataCategory::State, &[0, 255, 45]),
        vec![115, 116, 97, 116, 101, 45, 0, 255, 45]
    );
}

#[test]
fn test_gen_key_is_case_sensitive() {
    assert_ne!(gen_key(&DataCategory::Block, b"x"), b"Block-x".to_vec());
}

#[test]
fn test_gen_keys_keeps_order_and_length() {
    let keys = vec![b"b".to_vec(), b"a".to_vec(), b"b".to_vec(), Vec::new()];
    assert_eq!(
        gen_keys(&DataCategory::Receipt, &keys),
        vec![
            b"receipt-b".to_vec(),
            b"receipt-a".to_vec(),
            b"receipt-b".to_vec(),
            b"receipt-".to_vec()
        ]
    );
    assert_eq!(gen_keys(&DataCategory::Receipt, &[]), Vec::<Vec<u8>>::new());
}

#[test]
fn test_overlapping_prefixes_give_equal_composite_keys() {
    assert_eq!(
        gen_key(&DataCategory::Transaction, b"pool-x"),
        gen_key(&DataCategory::TransactionPool, b"x")
    );
    assert_eq!(
        gen_key(&DataCategory::Transaction, b"position-x"),
        gen_key(&DataCategory::TransactionPosition, b"x")
    );
}

#[test]
fn test_check_batch() {
    let one = vec![b"a".to_vec()];
    let two = vec![b"a".to_vec(), b"b".to_vec()];
    assert_eq!(check_batch(&one, &one), Ok(()));
    assert_eq!(check_batch(&[], &[]), Ok(()));
    assert_eq!(check_batch(&one, &two), Err(DatabaseError::InvalidData));
    assert_eq!(check_batch(&two, &one), Err(DatabaseError::InvalidData));
}

#[test]
fn test_lock_failure_is_an_internal_error() {
    assert_eq!(map_rwlock_err(), DatabaseError::Internal("rwlock error".to_string()));
}
