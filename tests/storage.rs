use kv_store::storage::{get_full_key, get_key_only, get_table_prefix, has_prefix, table_pairs_from_scan};
use kv_store::{flip, Kvpair, MemTable, Storage, StorageIter, Value};

fn test_basic_interface(mut store: impl Storage) {
    let v = store.set("t1", "hello".into(), "world".into());
    assert!(v.unwrap().is_none());
    let v1 = store.set("t1", "hello".into(), "world1".into());
    assert_eq!(v1.unwrap(), Some("world".into()));

    let v = store.get("t1", "hello");
    assert_eq!(v.unwrap(), Some("world1".into()));

    assert_eq!(None, store.get("t2", "hello").unwrap());
    assert_eq!(None, store.get("t1", "hello1").unwrap());
    assert!(store.get("t1", "hello1").unwrap().is_none());

    assert_eq!(store.contains("t1", "hello").unwrap(), true);
    assert_eq!(store.contains("t1", "hello1").unwrap(), false);
    assert_eq!(store.contains("t2", "hello").unwrap(), false);

    let v = store.del("t1", "hello");
    assert_eq!(v.unwrap(), Some("world1".into()));

    assert_eq!(None, store.del("t1", "hello1").unwrap());
    assert_eq!(None, store.del("t2", "hello").unwrap());
}

fn sorted(mut data: Vec<Kvpair>) -> Vec<Kvpair> {
    data.sort_by(|a, b| a.key.cmp(&b.key));
    data
}

fn test_get_all(mut store: impl Storage) {
    store.set("t2", "k1".into(), "v1".into()).unwrap();
    store.set("t2", "k2".into(), "v2".into()).unwrap();
    store.set("t1", "k3".into(), "v3".into()).unwrap();
    let data = sorted(store.get_all("t2").unwrap());
    assert_eq!(
        data,
        vec![Kvpair::new("k1", "v1".into()), Kvpair::new("k2", "v2".into())]
    )
}

fn drain(mut it: StorageIter) -> Vec<Kvpair> {
    let mut out = Vec::new();
    while let Some(p) = it.next() {
        out.push(p);
    }
    out
}

fn test_get_iter(mut store: impl Storage) {
    store.set("t2", "k1".into(), "v1".into()).unwrap();
    store.set("t2", "k2".into(), "v2".into()).unwrap();
    let data = sorted(drain(store.get_iter("t2").unwrap()));
    assert_eq!(
        data,
        vec![Kvpair::new("k1", "v1".into()), Kvpair::new("k2", "v2".into())]
    )
}

#[test]
fn memtable_basic_interface_should_work() {
    let store = MemTable::new();
    test_basic_interface(store);
}

#[test]
fn memtable_get_all_should_work() {
    let store = MemTable::new();
    test_get_all(store);
}

#[test]
fn memtable_iter_should_work() {
    let store = MemTable::new();
    test_get_iter(store);
}

#[test]
fn memtable_scan_of_three_keys_keeps_latest_values() {
    let mut store = MemTable::default();
    store.set("T", "k1".into(), 1.into()).unwrap();
    store.set("T", "k2".into(), 2.into()).unwrap();
    store.set("T", "k3".into(), 3.into()).unwrap();
    store.set("T", "k2".into(), 20.into()).unwrap();
    store.set("U", "k9".into(), 9.into()).unwrap();
    let expected = vec![
        Kvpair::new("k1", 1.into()),
        Kvpair::new("k2", 20.into()),
        Kvpair::new("k3", 3.into()),
    ];
    assert_eq!(sorted(store.get_all("T").unwrap()), expected);
    assert_eq!(sorted(drain(store.get_iter("T").unwrap())), expected);
}

#[test]
fn memtable_reads_and_deletes_do_not_create_tables() {
    let mut store = MemTable::new();
    assert_eq!(store.del("ghost", "k").unwrap(), None);
    assert_eq!(store.get("ghost", "k").unwrap(), None);
    assert_eq!(store.contains("ghost", "k").unwrap(), false);
    assert!(store.get_all("ghost").unwrap().is_empty());
    assert!(drain(store.get_iter("ghost").unwrap()).is_empty());
}

#[test]
fn memtable_delete_then_get_finds_nothing() {
    let mut store = MemTable::new();
    store.set("t", "k".into(), b"raw".to_vec().into()).unwrap();
    assert_eq!(store.del("t", "k").unwrap(), Some(b"raw".to_vec().into()));
    assert_eq!(store.get("t", "k").unwrap(), None);
    assert!(store.get_all("t").unwrap().is_empty());
}

#[test]
fn storage_iter_hands_out_pairs_in_order() {
    let mut it = StorageIter::new(vec![Kvpair::new("a", 1.into()), Kvpair::new("b", 2.into())]);
    assert_eq!(it.next(), Some(Kvpair::new("a", 1.into())));
    assert_eq!(it.next(), Some(Kvpair::new("b", 2.into())));
    assert_eq!(it.next(), None);
    assert_eq!(it.next(), None);
}

#[test]
fn flip_turns_option_of_result_inside_out() {
    assert_eq!(flip::<i64, String>(None), Ok(None));
    assert_eq!(flip::<i64, String>(Some(Ok(3))), Ok(Some(3)));
    assert_eq!(flip::<i64, String>(Some(Err("bad".to_string()))), Err("bad".to_string()));
}

#[test]
fn flat_keys_join_table_and_key_with_a_colon() {
    assert_eq!(get_full_key("t1", "hello"), "t1:hello");
    assert_eq!(get_full_key("", ""), ":");
    assert_eq!(get_table_prefix("score"), "score:");
    assert_eq!(get_key_only("score:math", "score:"), "math");
    assert_eq!(get_key_only("t:", "t:"), "");
    assert!(has_prefix("score:math", "score:"));
    assert!(!has_prefix("scores:math", "score:"));
    assert!(!has_prefix("sc", "score:"));
}

#[test]
fn scan_entries_keep_only_the_table_and_strip_its_prefix() {
    let entries = vec![
        ("t1:a".to_string(), Value::from(1)),
        ("t10:b".to_string(), Value::from(2)),
        ("t1:c".to_string(), Value::from("x")),
        ("t2:a".to_string(), Value::from(3)),
    ];
    let pairs = table_pairs_from_scan("t1", &entries);
    assert_eq!(pairs, vec![Kvpair::new("a", 1.into()), Kvpair::new("c", "x".into())]);
}
