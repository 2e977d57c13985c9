use gaskiya::cuckoo::{CuckooShardTable, ShardAssignment};

#[test]
fn distributes_keys_across_shards() {
    let mut table = CuckooShardTable::new(5, 4);
    for i in 0..15 {
        table.insert(&format!("listing-{i}")).unwrap();
    }
    let dist = table.distribution();
    assert_eq!(dist.iter().sum::<usize>(), 15);
    assert!(dist.iter().all(|&count| count > 0), "expected roughly even spread: {dist:?}");
}

#[test]
fn same_key_placement_is_deterministic() {
    let mut t1 = CuckooShardTable::new(5, 4);
    let mut t2 = CuckooShardTable::new(5, 4);
    for i in 0..10 {
        let key = format!("listing-{i}");
        assert_eq!(t1.insert(&key).unwrap().shard_id, t2.insert(&key).unwrap().shard_id);
    }
}

#[test]
fn grows_via_rehash_when_overfull() {
    let mut table = CuckooShardTable::new(2, 1);
    for i in 0..10 {
        table.insert(&format!("listing-{i}")).unwrap();
    }
    assert!(table.num_shards() > 2, "table should have rehashed to grow past 2 shards");
    assert_eq!(table.distribution().iter().sum::<usize>(), 10);
}

#[test]
fn new_table_is_empty() {
    let table = CuckooShardTable::new(3, 2);
    assert_eq!(table.num_shards(), 3);
    assert_eq!(table.distribution(), vec![0, 0, 0]);
}

#[test]
fn first_insert_lands_without_evictions() {
    let mut table = CuckooShardTable::new(4, 2);
    let placed = table.insert("listing-a").unwrap();
    assert_eq!(placed.evictions, 0);
    assert!(!placed.rehashed);
    assert!(placed.shard_id < 4);
    let dist = table.distribution();
    assert_eq!(dist[placed.shard_id], 1);
    assert_eq!(dist.iter().sum::<usize>(), 1);
}

#[test]
fn every_insert_adds_exactly_one_key() {
    let mut table = CuckooShardTable::new(3, 2);
    for i in 0..20 {
        let placed = table.insert(&format!("key-{i}")).unwrap();
        assert!(placed.shard_id < table.num_shards());
        assert_eq!(table.distribution().iter().sum::<usize>(), i + 1);
        assert!(table.distribution().iter().all(|&c| c <= 2));
    }
}

#[test]
fn a_rehash_reports_growth_and_no_evictions() {
    let mut table = CuckooShardTable::new(1, 1);
    table.insert("first").unwrap();
    let placed = table.insert("second").unwrap();
    assert!(placed.rehashed);
    assert_eq!(placed.evictions, 0);
    assert!(table.num_shards() > 1);
    assert_eq!(table.distribution().iter().sum::<usize>(), 2);
}

#[test]
fn replaying_the_same_keys_rebuilds_the_same_table() {
    let mut t1 = CuckooShardTable::new(2, 1);
    let mut t2 = CuckooShardTable::new(2, 1);
    for i in 0..12 {
        let key = format!("listing-{i}");
        let a = t1.insert(&key).unwrap();
        let b = t2.insert(&key).unwrap();
        assert_eq!(a, b);
    }
    assert_eq!(t1.num_shards(), t2.num_shards());
    assert_eq!(t1.distribution(), t2.distribution());
}

#[test]
fn leading_bytes_are_read_big_endian() {
    let digest = [1u8, 2, 3, 4, 5, 6, 7, 8, 9, 10];
    assert_eq!(gaskiya::cuckoo::leading_u64(&digest), 0x0102030405060708);
    assert_eq!(gaskiya::cuckoo::leading_u64(&[0xff; 8]), u64::MAX);
}

#[test]
fn replay_rebuilds_the_table_inserts_built() {
    let keys: Vec<String> = (0..12).map(|i| format!("listing-{i}")).collect();
    let mut live = CuckooShardTable::new(2, 1);
    for k in &keys {
        live.insert(k).unwrap();
    }
    let rebuilt = CuckooShardTable::replay(2, 1, &keys).unwrap();
    assert_eq!(rebuilt.num_shards(), live.num_shards());
    assert_eq!(rebuilt.distribution(), live.distribution());
    let empty = CuckooShardTable::replay(3, 4, &[]).unwrap();
    assert_eq!(empty.distribution(), vec![0, 0, 0]);
}

#[test]
fn a_full_first_candidate_sends_the_key_to_its_second() {
    let mut table = CuckooShardTable::new(4, 1);
    let placed = table.insert("listing-a").unwrap();
    let other = (0..100_000)
        .map(|i| format!("listing-{i}"))
        .find(|k| {
            let (a, b) = table.candidates(k);
            a == placed.shard_id && b != a
        })
        .unwrap();
    let before = table.distribution();
    let (_, second) = table.candidates(&other);
    let p = table.insert(&other).unwrap();
    assert_eq!(p, ShardAssignment { shard_id: second, evictions: 0, rehashed: false });
    let after = table.distribution();
    for i in 0..4 {
        assert_eq!(after[i], before[i] + if i == second { 1 } else { 0 });
    }
}

#[test]
fn the_reported_shard_is_a_candidate_of_the_inserted_key() {
    let mut table = CuckooShardTable::new(3, 1);
    for i in 0..25 {
        let key = format!("listing-{i}");
        let placed = table.insert(&key).unwrap();
        let (a, b) = table.candidates(&key);
        assert!(placed.shard_id == a || placed.shard_id == b);
        assert!(placed.shard_id < table.num_shards());
        assert!(table.distribution()[placed.shard_id] > 0);
    }
}

#[test]
fn shard_counts_sum_to_the_inserts_with_duplicates() {
    let mut table = CuckooShardTable::new(2, 2);
    for i in 0..9 {
        table.insert(&format!("k{}", i % 3)).unwrap();
    }
    assert_eq!(table.distribution().iter().sum::<usize>(), 9);
}
