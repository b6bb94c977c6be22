use docsore::layout::{index_partition, is_ledger_key, ledger_key, primary_partition};

#[test]
fn partitions_of_a_collection() {
    assert_eq!(primary_partition("persons"), b"persons".to_vec());
    assert_eq!(index_partition("persons"), b"persons\x00\x02".to_vec());
}

#[test]
fn ledger_key_ends_in_the_marker() {
    assert_eq!(ledger_key(b"p1"), vec![b'p', b'1', 0, 1]);
    assert!(is_ledger_key(&ledger_key(b"p1")));
    assert!(!is_ledger_key(b"p1"));
    assert!(!is_ledger_key(&[1]));
    assert!(is_ledger_key(&[0, 1]));
}
