use horcrust::shares_db::Timestamp;
use horcrust::{AdditiveSecretSharing, SharesDatabase, REFRESH_THRESHOLD};

#[test]
fn test_database() {
    let _secret_sharing = AdditiveSecretSharing::default();
    let mut db = SharesDatabase::new();
    let key = 0u32;
    let share = 1;
    let r = 2;
    db.insert(key, share);
    assert_eq!(db.get(key).unwrap(), share);

    db.modify(key, |share| share + r);
    assert_eq!(db.get(key).unwrap(), share + r);
}

#[test]
fn shares_db_test_database() {
    let _secret_sharing = AdditiveSecretSharing::default();
    let mut db = SharesDatabase::new();
    let key = 0u32;
    let share = 1;
    let r = 2;
    db.insert(key, share);
    assert_eq!(db.get(key).unwrap(), share);

    db.modify(key, |share| share + r);
    assert_eq!(db.get(key).unwrap(), share + r);
}

#[test]
fn new_store_is_empty() {
    let db = SharesDatabase::new();
    assert_eq!(db.get(0), None);
    assert_eq!(db.get(123), None);
    assert!(db.stale_keys().is_empty());
    assert!(db.stale_keys_at(u128::MAX).is_empty());
    let db = SharesDatabase::default();
    assert_eq!(db.get(0), None);
}

#[test]
fn insert_then_get_gives_the_share() {
    let mut db = SharesDatabase::new();
    db.insert(7, 300);
    assert_eq!(db.get(7), Some(300));
    assert_eq!(db.get(8), None);
}

#[test]
fn insert_overwrites_and_restamps() {
    let mut db = SharesDatabase::new();
    db.insert_at(7, 300, 10);
    db.insert_at(7, 301, 20);
    assert_eq!(db.get(7), Some(301));
    assert!(db.stale_keys_at(10 + REFRESH_THRESHOLD + 1).is_empty());
    assert_eq!(db.stale_keys_at(20 + REFRESH_THRESHOLD + 1), vec![7]);
}

#[test]
fn modify_replaces_the_share_and_restamps() {
    let mut db = SharesDatabase::new();
    db.insert_at(5, 100, 1_000);
    db.modify_at(5, |share| share * 2 + 1, 2_000);
    assert_eq!(db.get(5), Some(201));
    assert!(db.stale_keys_at(1_000 + REFRESH_THRESHOLD + 1).is_empty());
    assert_eq!(db.stale_keys_at(2_000 + REFRESH_THRESHOLD + 1), vec![5]);
}

#[test]
fn modify_on_absent_key_changes_nothing() {
    let mut db = SharesDatabase::new();
    db.insert_at(5, 100, 1_000);
    db.modify_at(6, |share| share + 1, 2_000);
    db.modify(9, |_| panic!("not called for a key that is not held"));
    assert_eq!(db.get(5), Some(100));
    assert_eq!(db.get(6), None);
    assert_eq!(db.get(9), None);
    assert_eq!(db.stale_keys_at(1_000 + REFRESH_THRESHOLD + 1), vec![5]);
}

#[test]
fn key_is_stale_only_after_the_threshold() {
    let written: Timestamp = 1_000_000;
    let mut db = SharesDatabase::new();
    db.insert_at(42, 7, written);
    assert_eq!(REFRESH_THRESHOLD, 5_000_000_000);
    assert!(db.stale_keys_at(0).is_empty());
    assert!(db.stale_keys_at(written).is_empty());
    assert!(db.stale_keys_at(written + 1).is_empty());
    assert!(db.stale_keys_at(written + REFRESH_THRESHOLD - 1).is_empty());
    assert!(db.stale_keys_at(written + REFRESH_THRESHOLD).is_empty());
    assert_eq!(db.stale_keys_at(written + REFRESH_THRESHOLD + 1), vec![42]);
    assert_eq!(db.stale_keys_at(u128::MAX), vec![42]);
}

#[test]
fn stale_keys_are_those_past_the_threshold_each_once() {
    let mut db = SharesDatabase::new();
    db.insert_at(1, 10, 0);
    db.insert_at(2, 20, 100);
    db.insert_at(3, 30, 200);
    db.insert_at(4, 40, 300);
    let mut stale = db.stale_keys_at(REFRESH_THRESHOLD + 150);
    stale.sort();
    assert_eq!(stale, vec![1, 2]);
    let mut stale = db.stale_keys_at(REFRESH_THRESHOLD + 1_000);
    stale.sort();
    assert_eq!(stale, vec![1, 2, 3, 4]);
}

#[test]
fn fresh_insert_is_not_stale_by_the_clock() {
    let mut db = SharesDatabase::new();
    db.insert(1, 10);
    assert!(db.stale_keys().is_empty());
    db.modify(1, |share| share + 1);
    assert!(db.stale_keys().is_empty());
    assert_eq!(db.get(1), Some(11));
}
