use ledger_storage::backend::MemBackend;
use ledger_storage::codec::DecodeError;
use ledger_storage::engine::{Storage, StorageError};
use ledger_storage::gov::GovParams;
use ledger_storage::hash::Fnv64Hasher;
use ledger_storage::key::Key;
use ledger_storage::token::Amount;

fn fresh() -> Storage<MemBackend, Fnv64Hasher> {
    Storage::open(MemBackend::new(), Fnv64Hasher::new())
}

fn key(parts: &[&str]) -> Key {
    let segments: Vec<String> = parts.iter().map(|s| s.to_string()).collect();
    Key::from_segments(segments).expect("well-formed key")
}

#[test]
fn write_is_visible_before_commit() {
    let mut s = fresh();
    let k = key(&["acct", "balance"]);
    s.write(&k, &42u64);
    assert_eq!(s.read::<u64>(&k).unwrap(), Some(42));
}

#[test]
fn read_of_absent_key_is_none() {
    let s = fresh();
    assert_eq!(s.read::<u64>(&key(&["missing"])).unwrap(), None);
}

#[test]
fn staged_delete_hides_committed_value() {
    let mut s = fresh();
    let k = key(&["acct", "balance"]);
    s.write(&k, &7u64);
    s.commit().unwrap();
    assert_eq!(s.read::<u64>(&k).unwrap(), Some(7));
    s.delete(&k);
    assert_eq!(s.read::<u64>(&k).unwrap(), None);
    s.commit().unwrap();
    assert_eq!(s.read::<u64>(&k).unwrap(), None);
}

#[test]
fn later_staged_write_wins() {
    let mut s = fresh();
    let k = key(&["acct", "balance"]);
    s.write(&k, &1u64);
    s.write(&k, &2u64);
    assert_eq!(s.read::<u64>(&k).unwrap(), Some(2));
    s.commit().unwrap();
    assert_eq!(s.read::<u64>(&k).unwrap(), Some(2));
}

#[test]
fn commit_advances_height_and_noop_commit_keeps_root() {
    let mut s = fresh();
    assert_eq!(s.current_height(), 0);
    s.write(&key(&["a"]), &5u64);
    let root1 = s.commit().unwrap();
    assert_eq!(s.current_height(), 1);
    assert_eq!(s.current_root(), root1);
    let root2 = s.commit().unwrap();
    assert_eq!(s.current_height(), 2);
    assert_eq!(root2, root1);
}

#[test]
fn commit_is_atomic_under_backend_failure() {
    let mut db = MemBackend::new();
    db.set_fail_next_commit(true);
    let mut s = Storage::open(db, Fnv64Hasher::new());
    let before_root = s.current_root();
    let before_height = s.current_height();
    s.write(&key(&["a"]), &1u64);
    s.write(&key(&["b"]), &2u64);
    assert_eq!(s.commit().unwrap_err(), StorageError::Io);
    assert_eq!(s.current_root(), before_root);
    assert_eq!(s.current_height(), before_height);
    assert_eq!(s.read::<u64>(&key(&["a"])).unwrap(), Some(1));
    let root = s.commit().expect("fault cleared, batch fully applies");
    assert_eq!(s.current_root(), root);
    assert_ne!(root, before_root);
    assert_eq!(s.current_height(), before_height + 1);
}

#[test]
fn roots_are_deterministic_across_engines() {
    let mut s1 = fresh();
    let mut s2 = fresh();
    for s in [&mut s1, &mut s2] {
        s.write(&key(&["gov", "counter"]), &0u64);
        s.write(&key(&["acct", "balance"]), &9u64);
    }
    assert_eq!(s1.commit().unwrap(), s2.commit().unwrap());
}

#[test]
fn iter_prefix_yields_exactly_the_subtree_in_order() {
    let mut s = fresh();
    s.write(&key(&["acct", "b"]), &2u64);
    s.write(&key(&["acct", "a"]), &1u64);
    s.write(&key(&["gov", "counter"]), &0u64);
    s.write(&key(&["acct", "a", "sub"]), &3u64);
    s.commit().unwrap();
    let items = s.iter_prefix::<u64>(&key(&["acct"])).unwrap();
    let got: Vec<(String, u64)> = items.iter().map(|(k, v)| (k.to_string(), *v)).collect();
    assert_eq!(
        got,
        vec![
            ("acct/a".to_string(), 1),
            ("acct/a/sub".to_string(), 3),
            ("acct/b".to_string(), 2),
        ]
    );
}

#[test]
fn iter_prefix_ignores_staged_writes() {
    let mut s = fresh();
    s.write(&key(&["acct", "a"]), &1u64);
    s.commit().unwrap();
    s.write(&key(&["acct", "b"]), &2u64);
    let items = s.iter_prefix::<u64>(&key(&["acct"])).unwrap();
    assert_eq!(items.len(), 1);
}

#[test]
fn decode_mismatch_is_an_error_not_absence() {
    let mut s = fresh();
    let k = key(&["gov", "params"]);
    s.write(&k, &1u64);
    s.commit().unwrap();
    assert_eq!(
        s.read::<GovParams>(&k).unwrap_err(),
        StorageError::Decode(DecodeError::Truncated)
    );
    assert_eq!(
        s.iter_prefix::<GovParams>(&key(&["gov"])).unwrap_err(),
        StorageError::Decode(DecodeError::Truncated)
    );
}

#[test]
fn typed_amount_round_trips_through_storage() {
    let mut s = fresh();
    let k = key(&["token", "supply"]);
    s.write(&k, &Amount::whole(12));
    s.commit().unwrap();
    assert_eq!(s.read::<Amount>(&k).unwrap(), Some(Amount::whole(12)));
}
