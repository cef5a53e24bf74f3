use minikv::store::Store;

#[test]
fn fresh_store_holds_nothing() {
    let store = Store::new();
    assert_eq!(store.get("foo"), None);
    assert_eq!(store.get(""), None);
}

#[test]
fn get_finds_what_was_set() {
    let mut store = Store::new();
    store.set("foo".to_string(), b"bar".to_vec());
    assert_eq!(store.get("foo"), Some(b"bar".to_vec()));
    assert_eq!(store.get("fo"), None);
    assert_eq!(store.get("foo "), None);
}

#[test]
fn set_replaces_the_value() {
    let mut store = Store::new();
    store.set("k".to_string(), b"v1".to_vec());
    store.set("k".to_string(), b"v2".to_vec());
    assert_eq!(store.get("k"), Some(b"v2".to_vec()));
    store.set("k".to_string(), b"v1".to_vec());
    assert_eq!(store.get("k"), Some(b"v1".to_vec()));
}

#[test]
fn keys_do_not_disturb_each_other() {
    let mut store = Store::new();
    store.set("a".to_string(), b"1".to_vec());
    store.set("b".to_string(), Vec::new());
    store.set("".to_string(), b"empty key".to_vec());
    assert_eq!(store.get("a"), Some(b"1".to_vec()));
    assert_eq!(store.get("b"), Some(Vec::new()));
    assert_eq!(store.get(""), Some(b"empty key".to_vec()));
    assert_eq!(store.get("c"), None);
}

#[test]
fn two_sets_in_either_order_leave_one_of_the_two_values() {
    for order in [[&b"v1"[..], b"v2"], [&b"v2"[..], b"v1"]] {
        let mut store = Store::new();
        store.set("k".to_string(), order[0].to_vec());
        store.set("k".to_string(), order[1].to_vec());
        let found = store.get("k").unwrap();
        assert!(found == b"v1".to_vec() || found == b"v2".to_vec());
        assert_eq!(found, order[1].to_vec());
    }
}
