use iavl::IAVL;

#[test]
fn empty_store_yields_placeholder_digest() {
    let store = IAVL::new();
    assert_eq!(store.save_tree(), [0u8; 32]);
}

#[test]
fn new_store_starts_at_version_zero() {
    let store = IAVL::new();
    assert_eq!(store.version, 0);
    assert!(store.search(0).is_none());
}

#[test]
fn reinsertion_changes_digest_and_shadows_value() {
    let mut store = IAVL::new();
    store.insert(42, b"v1".to_vec());
    let d1 = store.save_tree();
    store.insert(42, b"v2".to_vec());
    let d2 = store.save_tree();
    assert_ne!(d1, d2);
    assert_eq!(store.search(42).as_deref(), Some(b"v2".as_slice()));
}

#[test]
fn search_returns_current_values() {
    let mut store = IAVL::new();
    for k in [5u64, 3, 8, 1, 4, 7, 9, 2, 6, 0] {
        store.insert(k, k.to_string().into_bytes());
    }
    assert_eq!(store.search(6).as_deref(), Some(b"6".as_slice()));
    assert!(store.search(10).is_none());
    for k in 0..=9u64 {
        assert_eq!(store.search(k), Some(k.to_string().into_bytes()));
    }
}

#[test]
fn same_insertion_sequence_same_root_digest() {
    let mut a = IAVL::new();
    let mut b = IAVL::new();
    for k in [9u64, 4, 7, 1, 3, 8, 2] {
        a.insert(k, k.to_string().into_bytes());
        b.insert(k, k.to_string().into_bytes());
    }
    let da = a.save_tree();
    assert_eq!(da, b.save_tree());
    // recomputing with no intervening mutation changes nothing
    assert_eq!(da, a.save_tree());
}

#[test]
fn digest_senses_any_single_value_change() {
    let keys: [u64; 5] = [10, 20, 30, 40, 50];
    let mut base = IAVL::new();
    for k in keys {
        base.insert(k, b"old".to_vec());
    }
    let d0 = base.save_tree();
    for k in keys {
        let mut changed = IAVL::new();
        for j in keys {
            changed.insert(j, b"old".to_vec());
        }
        changed.insert(k, b"new".to_vec());
        assert_ne!(d0, changed.save_tree(), "changing key {} must move the root", k);
    }
}
