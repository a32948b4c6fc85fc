use nltt::store::MessageStore;
use nltt::winlog::WinLogStore;

#[test]
fn store_insert_and_extract() {
    let mut store = MessageStore::new();
    store.insert(10, 1, vec![0xde, 0xad]);
    assert_eq!(store.len(), 1);
    assert!(store.contains(10));
    let (msg_id, sender, body) = store.extract(10).unwrap();
    assert_eq!(msg_id, 10);
    assert_eq!(sender, 1);
    assert_eq!(body, vec![0xde, 0xad]);
    assert_eq!(store.len(), 0);
}

#[test]
fn store_extract_absent_is_none() {
    let mut store = MessageStore::new();
    store.insert(10, 1, vec![1]);
    assert!(store.extract(11).is_none());
    assert_eq!(store.len(), 1);
}

#[test]
fn store_extract_is_unique() {
    // A key inserted once is returned by at most one extract.
    let mut store = MessageStore::new();
    store.insert(10, 1, vec![1, 2, 3]);
    assert!(store.extract(10).is_some());
    assert!(store.extract(10).is_none());
}

#[test]
fn store_bound_keeps_last_500_distinct_keys() {
    let mut store = MessageStore::new();
    for k in 0..600u128 {
        store.insert(k, 1, vec![k as u8]);
        assert!(store.len() <= 500);
    }
    assert_eq!(store.len(), 500);
    // The first 100 keys were evicted FIFO; the last 500 are retained.
    for k in 0..100u128 {
        assert!(!store.contains(k));
    }
    for k in 100..600u128 {
        assert!(store.contains(k));
    }
}

#[test]
fn store_collision_overwrites_and_moves_to_newest() {
    let mut store = MessageStore::new();
    store.insert(1, 7, vec![1]);
    store.insert(2, 7, vec![2]);
    store.insert(1, 7, vec![3]); // overwrite: entry 1 moves to newest
    assert_eq!(store.len(), 2);
    let (_, _, body) = store.extract(1).unwrap();
    assert_eq!(body, vec![3]);
    // Fill to capacity: key 2 is now the oldest and is evicted first.
    store.insert(1, 7, vec![4]);
    for k in 10..508u128 {
        store.insert(k, 7, vec![0]);
    }
    assert_eq!(store.len(), 500);
    store.insert(999, 7, vec![0]);
    assert!(!store.contains(2));
    assert!(store.contains(1));
    assert_eq!(store.len(), 500);
}

#[test]
fn winlog_records_in_order() {
    let mut log = WinLogStore::new();
    log.insert(100, 1, 1000);
    log.insert(101, 2, 1001);
    assert_eq!(log.len(), 2);
    let all = log.get_all();
    assert_eq!(all, vec![(1, 1000, 100), (2, 1001, 101)]);
}

#[test]
fn winlog_bound_keeps_last_100() {
    let mut log = WinLogStore::new();
    for n in 0..150u64 {
        log.insert(n as u128, n as u128, 2000 + n);
        assert!(log.len() <= 100);
    }
    assert_eq!(log.len(), 100);
    let all = log.get_all();
    assert_eq!(all.len(), 100);
    for (i, rec) in all.iter().enumerate() {
        let n = 50 + i as u64;
        assert_eq!(*rec, (n as u128, 2000 + n, n as u128));
    }
}
