use iavl::Node;

fn leaf_count(node: &Node) -> u64 {
    match node {
        Node::Leaf { .. } => 1,
        Node::Inner { left, right, .. } => {
            opt_leaf_count(left) + opt_leaf_count(right)
        }
    }
}

fn opt_leaf_count(node: &Option<Box<Node>>) -> u64 {
    match node {
        None => 0,
        Some(n) => leaf_count(n),
    }
}

fn computed_height(node: &Node) -> i64 {
    match node {
        Node::Leaf { .. } => 0,
        Node::Inner { left, right, .. } => {
            1 + opt_height(left).max(opt_height(right))
        }
    }
}

fn opt_height(node: &Option<Box<Node>>) -> i64 {
    match node {
        None => 0,
        Some(n) => computed_height(n),
    }
}

/// Every branch's balance factor lies in -1..=1, and every cached height
/// matches the structure.
fn well_balanced(node: &Node) -> bool {
    match node {
        Node::Leaf { .. } => true,
        Node::Inner { left, right, height, .. } => {
            let hl = opt_height(left);
            let hr = opt_height(right);
            let factor = hl - hr;
            (-1..=1).contains(&factor)
                && i64::from(*height) == computed_height(node)
                && left.as_ref().map_or(false, |n| well_balanced(n))
                && right.as_ref().map_or(false, |n| well_balanced(n))
        }
    }
}

fn build(keys: &[u64]) -> Box<Node> {
    let mut root = Box::new(Node::new_leaf(keys[0], keys[0].to_string().into_bytes(), 0));
    for &k in &keys[1..] {
        root = Node::insert(root, k, k.to_string().into_bytes(), 0);
    }
    root
}

#[test]
fn mixed_inserts_stay_shallow() {
    let root = build(&[5, 3, 8, 1, 4, 7, 9, 2, 6, 0]);
    assert!(well_balanced(&root));
    assert!(computed_height(&root) <= 4);
    let opt = Some(root);
    assert!(Node::height(&opt) <= 4);
    let root = opt.unwrap();
    match Node::search(&6, &root) {
        Some((k, v)) => {
            assert_eq!(*k, 6);
            assert_eq!(v.as_slice(), b"6");
        }
        None => panic!("key 6 was inserted"),
    }
    assert!(Node::search(&10, &root).is_none());
}

#[test]
fn ascending_inserts_rebalance() {
    let mut root = Box::new(Node::new_leaf(1, b"1".to_vec(), 0));
    for k in 2..=7u64 {
        root = Node::insert(root, k, k.to_string().into_bytes(), 0);
        assert!(well_balanced(&root), "unbalanced after inserting {}", k);
    }
    assert_eq!(leaf_count(&root), 7);
    assert!(computed_height(&root) <= 3);
}

#[test]
fn descending_inserts_rebalance() {
    let mut root = Box::new(Node::new_leaf(7, b"7".to_vec(), 0));
    for k in (1..=6u64).rev() {
        root = Node::insert(root, k, k.to_string().into_bytes(), 0);
        assert!(well_balanced(&root), "unbalanced after inserting {}", k);
    }
    assert_eq!(leaf_count(&root), 7);
    assert!(computed_height(&root) <= 3);
}

#[test]
fn hundred_ascending_height_bound() {
    let mut root = Box::new(Node::new_leaf(0, b"0".to_vec(), 0));
    for k in 1..100u64 {
        root = Node::insert(root, k, k.to_string().into_bytes(), 0);
    }
    assert!(well_balanced(&root));
    // 100 entries and fib(12) = 144 > 100 force height <= 9
    assert!(computed_height(&root) <= 9);
    for k in 0..100u64 {
        let found = Node::search(&k, &root).expect("inserted key must be found");
        assert_eq!(found.1.as_slice(), k.to_string().as_bytes());
    }
    assert!(Node::search(&100, &root).is_none());
}

#[test]
fn three_keys_balanced_not_chain() {
    let root = build(&[3, 1, 2]);
    // the split of the terminal holding 1 yields a balanced two-level tree,
    // not a three-level chain
    assert!(well_balanced(&root));
    assert_eq!(computed_height(&root), 2);
    assert_eq!(leaf_count(&root), 3);
    match &*root {
        Node::Inner { key, left, right, .. } => {
            assert_eq!(*key, 3);
            match left.as_deref() {
                Some(Node::Inner { key, left, right, .. }) => {
                    assert_eq!(*key, 2);
                    assert!(matches!(left.as_deref(), Some(Node::Leaf { key: 1, .. })));
                    assert!(matches!(right.as_deref(), Some(Node::Leaf { key: 2, .. })));
                }
                _ => panic!("left child must separate 1 and 2"),
            }
            assert!(matches!(right.as_deref(), Some(Node::Leaf { key: 3, .. })));
        }
        Node::Leaf { .. } => panic!("three entries need a branch"),
    }
    for k in 1..=3u64 {
        assert!(Node::search(&k, &root).is_some());
    }
}

#[test]
fn equal_key_shadows_older_entry() {
    let mut root = Box::new(Node::new_leaf(42, b"v1".to_vec(), 0));
    root = Node::insert(root, 42, b"v2".to_vec(), 0);
    let (k, v) = Node::search(&42, &root).expect("key present");
    assert_eq!(*k, 42);
    assert_eq!(v.as_slice(), b"v2");
    // the superseded terminal is retained, not deleted
    assert_eq!(leaf_count(&root), 2);
}

#[test]
fn digest_recomputation_is_deterministic() {
    let mut root = build(&[5, 3, 8, 1]);
    let d1 = Node::update_hash(&mut root);
    let d2 = Node::update_hash(&mut root);
    assert_eq!(d1, d2);
    let mut twin = build(&[5, 3, 8, 1]);
    assert_eq!(Node::update_hash(&mut twin), d1);
}

#[test]
fn digest_binds_value_key_and_version() {
    let mut a = Box::new(Node::new_leaf(1, b"a".to_vec(), 0));
    let mut b = Box::new(Node::new_leaf(1, b"b".to_vec(), 0));
    let mut c = Box::new(Node::new_leaf(2, b"a".to_vec(), 0));
    let mut d = Box::new(Node::new_leaf(1, b"a".to_vec(), 1));
    let da = Node::update_hash(&mut a);
    assert_ne!(da, Node::update_hash(&mut b));
    assert_ne!(da, Node::update_hash(&mut c));
    assert_ne!(da, Node::update_hash(&mut d));
    assert_ne!(da, [0u8; 32]);
    let mut a2 = Box::new(Node::new_leaf(1, b"a".to_vec(), 0));
    assert_eq!(da, Node::update_hash(&mut a2));
}

#[test]
fn same_data_same_digest_swapped_values_differ() {
    // the orders [1, 2] and [2, 1] build the same two-terminal tree
    let mut ab = build(&[1, 2]);
    let mut ba = build(&[2, 1]);
    assert_eq!(Node::update_hash(&mut ab), Node::update_hash(&mut ba));
    // swapping which value sits under which key must change the root digest
    let mut swapped = Box::new(Node::new_leaf(1, b"2".to_vec(), 0));
    swapped = Node::insert(swapped, 2, b"1".to_vec(), 0);
    assert_ne!(Node::update_hash(&mut ab), Node::update_hash(&mut swapped));
}

#[test]
fn clone_copies_data_and_digest() {
    let root = build(&[5, 3, 8, 1, 4]);
    let mut copy = Box::new(root.clone());
    let mut root = root;
    assert!(well_balanced(&copy));
    assert_eq!(Node::update_hash(&mut root), Node::update_hash(&mut copy));
    for k in [5u64, 3, 8, 1, 4] {
        let found = Node::search(&k, &copy).expect("cloned tree holds the key");
        assert_eq!(found.1.as_slice(), k.to_string().as_bytes());
    }
}

#[test]
fn update_hash_leaves_data_intact() {
    let mut root = build(&[5, 3, 8, 1, 4]);
    Node::update_hash(&mut root);
    assert!(well_balanced(&root));
    for k in [5u64, 3, 8, 1, 4] {
        let found = Node::search(&k, &root).expect("inserted key must be found");
        assert_eq!(found.1.as_slice(), k.to_string().as_bytes());
    }
}
