//! The insertion engine: recursive descent to the target terminal, the
//! split of that terminal into a fresh branch, and rebalancing on the way
//! back up. The contract pins the result exactly: the returned subtree holds
//! `inserted` of the old data, so insertion is a function of the old content
//! and the new entry alone.

use vstd::prelude::*;

use crate::model::Tree;
use crate::node::Node;

verus! {

impl Node {
    /// Inserts into an optional subtree; an absent subtree becomes a fresh
    /// terminal.
    pub(crate) fn insert_in_child(
        root: Option<Box<Node>>,
        new_key: u64,
        new_value: Vec<u8>,
        version: u32,
    ) -> (r: Option<Box<Node>>)
        requires
            (match root {
                Some(n) => n.heights_ok() && n.as_tree().balanced() && n.as_tree().height() < 64,
                None => true,
            }),
        ensures
            (r matches Some(n2) && n2.heights_ok() && (match root {
                Some(n) => n2.as_tree() == n.as_tree().inserted(new_key, new_value@, version),
                None => n2.as_tree() == (Tree::Leaf { key: new_key, value: new_value@, version }),
            })),
        decreases root,
    {
        Some(
            match root {
                Some(node) => Node::insert(node, new_key, new_value, version),
                None => Box::new(Node::new_leaf(new_key, new_value, version)),
            },
        )
    }

    /// Inserts an entry and rebalances. The boundary keys route the descent;
    /// at a terminal the entry is split in two, with an equal key going
    /// right so that the newest entry for a key shadows the older ones. The
    /// height cap reflects the balance invariant: a balanced tree of height
    /// 64 already holds more terminals than any machine can hold in memory.
    pub fn insert(root: Box<Node>, new_key: u64, new_value: Vec<u8>, version: u32) -> (r: Box<
        Node,
    >)
        requires
            root.heights_ok(),
            root.as_tree().balanced(),
            root.as_tree().height() < 64,
        ensures
            r.as_tree() == root.as_tree().inserted(new_key, new_value@, version),
            r.heights_ok(),
        decreases *root,
    {
        let ghost t = root.as_tree();
        let mut node: Box<Node> = match *root {
            Node::Inner { key, left, right, hash, height, version: node_version } => {
                proof {
                    assert(left is Some && right is Some);
                    assert(left.unwrap().heights_ok() && right.unwrap().heights_ok());
                    assert(t->left == Box::new(left.unwrap().as_tree()));
                    assert(t->right == Box::new(right.unwrap().as_tree()));
                    assert(t->left.balanced() && t->right.balanced());
                    assert(t.height() == 1 + crate::model::nat_max(
                        t->left.height(),
                        t->right.height(),
                    ));
                }
                if new_key < key {
                    let nl = Node::insert_in_child(left, new_key, new_value, version);
                    proof {
                        crate::laws::lemma_inserted(*t->left, new_key, new_value@, version);
                    }
                    Box::new(
                        Node::Inner {
                            key,
                            left: nl,
                            right,
                            hash,
                            height,
                            version: node_version,
                        },
                    )
                } else {
                    let nr = Node::insert_in_child(right, new_key, new_value, version);
                    proof {
                        crate::laws::lemma_inserted(*t->right, new_key, new_value@, version);
                    }
                    Box::new(
                        Node::Inner {
                            key,
                            left,
                            right: nr,
                            hash,
                            height,
                            version: node_version,
                        },
                    )
                }
            },
            Node::Leaf { key, value, version: leaf_version, hash } => {
                let old_leaf = Box::new(Node::Leaf { key, value, version: leaf_version, hash });
                let fresh_leaf = Box::new(Node::new_leaf(new_key, new_value, version));
                proof {
                    assert(old_leaf.heights_ok());
                    assert(old_leaf.as_tree() == t);
                }
                if new_key < key {
                    Box::new(Node::new_inner(key, fresh_leaf, old_leaf, version))
                } else {
                    Box::new(Node::new_inner(new_key, old_leaf, fresh_leaf, version))
                }
            },
        };
        let ghost grown = node.as_tree();
        proof {
            assert(grown is Branch);
            assert(grown.height() == 1 + crate::model::nat_max(
                grown->left.height(),
                grown->right.height(),
            ));
            assert(-2 <= grown->left.height() - grown->right.height() <= 2);
            assert(grown.height() <= t.height() + 1);
        }
        Node::update_height(&mut node);
        let r = Node::balance(node);
        proof {
            assert(t.inserted(new_key, new_value@, version) == grown.rebalanced());
        }
        r
    }
}

} // verus!
