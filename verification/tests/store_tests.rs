use ledger_sync::store::{Fork, MemoryDb, Snapshot};
use ledger_sync::index::{Entry, KeySetIndex, ListIndex, MapIndex, ValueSetIndex};
use ledger_sync::blockchain::Blockchain;
use ledger_sync::bytes_eq;
use sha2::{Digest, Sha256};

#[test]
fn bytes_eq_compares_contents() {
    assert!(bytes_eq(&vec![1, 2, 3], &vec![1, 2, 3]));
    assert!(!bytes_eq(&vec![1, 2, 3], &vec![1, 2, 4]));
    assert!(!bytes_eq(&vec![1, 2], &vec![1, 2, 3]));
}

#[test]
fn fork_read_after_write() {
    let db = MemoryDb::new();
    let mut fork = Fork::new(db.snapshot());
    fork.put(vec![1], vec![10]);
    assert_eq!(fork.get(&vec![1]), Some(&vec![10]));
}

#[test]
fn fork_delete_hides_base_key() {
    let mut db = MemoryDb::new();
    let mut fork = Fork::new(db.snapshot());
    fork.put(vec![1], vec![10]);
    db.merge(fork.into_patch()).unwrap();

    let mut fork = Fork::new(db.snapshot());
    assert_eq!(fork.get(&vec![1]), Some(&vec![10]));
    fork.delete(vec![1]);
    assert_eq!(fork.get(&vec![1]), None);
}

#[test]
fn snapshot_isolation() {
    let mut db = MemoryDb::new();
    let s1 = db.snapshot();
    let mut fork = Fork::new(db.snapshot());
    fork.put(vec![5], vec![55]);
    db.merge(fork.into_patch()).unwrap();
    let s2 = db.snapshot();
    assert_eq!(s1.get(&vec![5]), None);
    assert_eq!(s2.get(&vec![5]), Some(&vec![55]));
}

#[test]
fn patch_applies_atomically() {
    let mut db = MemoryDb::new();
    let mut fork = Fork::new(db.snapshot());
    fork.put(vec![1], vec![9]);
    db.merge(fork.into_patch()).unwrap();

    let mut fork = Fork::new(db.snapshot());
    fork.put(vec![1], vec![11]);
    fork.put(vec![2], vec![22]);
    fork.put(vec![3], vec![33]);
    fork.delete(vec![1]);
    let result = db.merge(fork.into_patch());
    assert!(result.is_ok());
    let s = db.snapshot();
    assert_eq!(s.get(&vec![1]), None);
    assert_eq!(s.get(&vec![2]), Some(&vec![22]));
    assert_eq!(s.get(&vec![3]), Some(&vec![33]));
}


#[test]
fn entry_set_get_remove() {
    let db = MemoryDb::new();
    let mut fork = Fork::new(db.snapshot());
    let e = Entry::new(vec![9]);
    assert!(!e.is_set(&fork));
    e.set(&mut fork, vec![42]);
    assert!(e.is_set(&fork));
    assert_eq!(e.get(&fork), Some(&vec![42]));
    e.remove(&mut fork);
    assert_eq!(e.get(&fork), None);
}

#[test]
fn map_index_put_get_remove() {
    let db = MemoryDb::new();
    let mut fork = Fork::new(db.snapshot());
    let a = MapIndex::new(vec![10]);
    let b = MapIndex::new(vec![11]);
    a.put(&mut fork, &vec![1], vec![100]);
    assert_eq!(a.get(&fork, &vec![1]), Some(&vec![100]));
    // a differently named index never observes the other's keys
    assert_eq!(b.get(&fork, &vec![1]), None);
    assert!(a.contains(&fork, &vec![1]));
    a.remove(&mut fork, &vec![1]);
    assert_eq!(a.get(&fork, &vec![1]), None);
}

#[test]
fn list_index_push_get_len_truncate() {
    let db = MemoryDb::new();
    let mut fork = Fork::new(db.snapshot());
    let l = ListIndex::new(vec![12]);
    assert_eq!(l.len(&fork), 0);
    l.push(&mut fork, vec![1]);
    l.push(&mut fork, vec![2]);
    l.push(&mut fork, vec![3]);
    assert_eq!(l.len(&fork), 3);
    assert_eq!(l.get(&fork, 0), Some(&vec![1]));
    assert_eq!(l.get(&fork, 2), Some(&vec![3]));
    assert_eq!(l.get(&fork, 3), None);
    l.truncate(&mut fork, 1);
    assert_eq!(l.len(&fork), 1);
    assert_eq!(l.get(&fork, 0), Some(&vec![1]));
    assert_eq!(l.get(&fork, 1), None);
}

#[test]
fn key_set_index_insert_contains_remove() {
    let db = MemoryDb::new();
    let mut fork = Fork::new(db.snapshot());
    let s = KeySetIndex::new(vec![13]);
    assert!(!s.contains(&fork, &vec![7; 32]));
    s.insert(&mut fork, &vec![7; 32]);
    assert!(s.contains(&fork, &vec![7; 32]));
    s.remove(&mut fork, &vec![7; 32]);
    assert!(!s.contains(&fork, &vec![7; 32]));
}

#[test]
fn value_set_index_membership_by_hash() {
    let db = MemoryDb::new();
    let mut fork = Fork::new(db.snapshot());
    let s = ValueSetIndex::new(vec![14]);
    assert!(!s.contains_value(&fork, &vec![1, 2, 3]));
    s.insert(&mut fork, vec![1, 2, 3]);
    assert!(s.contains_value(&fork, &vec![1, 2, 3]));
    assert!(!s.contains_value(&fork, &vec![1, 2, 4]));
    let h = Sha256::digest(&[1u8, 2, 3]).to_vec();
    assert!(s.contains_hash(&fork, &h));
}

#[test]
fn blockchain_reads_durable_tables() {
    let mut db = MemoryDb::new();
    let mut fork = Fork::new(db.snapshot());
    let names = Blockchain::new(Snapshot::empty());
    names.heights().push(&mut fork, vec![8; 32]);
    names.transactions().put(&mut fork, &vec![2; 32], vec![222]);
    names.precommits(&vec![8; 32]).push(&mut fork, vec![77]);
    db.merge(fork.into_patch()).unwrap();
    let bc = Blockchain::new(db.snapshot());
    assert_eq!(bc.height_hash(0), Some(&vec![8; 32]));
    assert_eq!(bc.height_hash(1), None);
    assert_eq!(bc.transactions().get(&bc.snap, &vec![2; 32]), Some(&vec![222]));
    assert_eq!(bc.precommits_list(&vec![8; 32]), vec![vec![77]]);
}

#[test]
fn map_index_iter_is_sorted_and_complete() {
    let mut db = MemoryDb::new();
    let mut fork = Fork::new(db.snapshot());
    let a = MapIndex::new(vec![20]);
    let other = MapIndex::new(vec![21]);
    a.put(&mut fork, &vec![3, 1], vec![31]);
    a.put(&mut fork, &vec![1], vec![1]);
    a.put(&mut fork, &vec![2, 9], vec![29]);
    other.put(&mut fork, &vec![0], vec![0]);
    db.merge(fork.into_patch()).unwrap();
    let snap = db.snapshot();
    let entries = a.iter(&snap);
    assert_eq!(
        entries,
        vec![
            (vec![1], vec![1]),
            (vec![2, 9], vec![29]),
            (vec![3, 1], vec![31]),
        ]
    );
}

#[test]
fn map_index_iter_from_seeks() {
    let mut db = MemoryDb::new();
    let mut fork = Fork::new(db.snapshot());
    let a = MapIndex::new(vec![22]);
    a.put(&mut fork, &vec![1], vec![1]);
    a.put(&mut fork, &vec![2], vec![2]);
    a.put(&mut fork, &vec![3], vec![3]);
    db.merge(fork.into_patch()).unwrap();
    let snap = db.snapshot();
    let entries = a.iter_from(&snap, &vec![2]);
    assert_eq!(entries, vec![(vec![2], vec![2]), (vec![3], vec![3])]);
}

#[test]
fn key_set_iter_in_key_order() {
    let mut db = MemoryDb::new();
    let mut fork = Fork::new(db.snapshot());
    let s = KeySetIndex::new(vec![23]);
    s.insert(&mut fork, &vec![9; 32]);
    s.insert(&mut fork, &vec![1; 32]);
    s.insert(&mut fork, &vec![5; 32]);
    db.merge(fork.into_patch()).unwrap();
    let snap = db.snapshot();
    let keys = s.iter(&snap);
    assert_eq!(keys, vec![vec![1; 32], vec![5; 32], vec![9; 32]]);
}

#[test]
fn fork_backed_iteration_sees_pending_writes() {
    let mut db = MemoryDb::new();
    let mut fork = Fork::new(db.snapshot());
    let a = MapIndex::new(vec![24]);
    a.put(&mut fork, &vec![2], vec![0xAA]);
    db.merge(fork.into_patch()).unwrap();

    let mut fork = Fork::new(db.snapshot());
    a.put(&mut fork, &vec![1], vec![0xBB]);
    a.put(&mut fork, &vec![2], vec![0xCC]);
    a.remove(&mut fork, &vec![1]);
    a.put(&mut fork, &vec![3], vec![0xDD]);
    // overlay-then-snapshot precedence: the pending put of key 2 wins over the
    // merged value, the removed key 1 is absent, key 3 is visible before merge
    let eff = fork.materialize();
    let entries = a.iter(&eff);
    assert_eq!(entries, vec![(vec![2], vec![0xCC]), (vec![3], vec![0xDD])]);
}
