//! Read-only search: a recursive descent that mirrors insertion's
//! comparison, so the terminal it reaches for a key is exactly the one the
//! model's `lookup` names — the most recently inserted entry for that key.

use vstd::prelude::*;

use crate::node::Node;

verus! {

impl Node {
    /// Every branch of a subtree with correct height caches carries both
    /// children.
    pub proof fn lemma_heights_ok_complete(self)
        requires
            self.heights_ok(),
        ensures
            self.complete(),
        decreases self,
    {
        match self {
            Node::Leaf { .. } => {},
            Node::Inner { left, right, .. } => {
                left.unwrap().lemma_heights_ok_complete();
                right.unwrap().lemma_heights_ok_complete();
            },
        }
    }

    /// Descends by the boundary keys (strictly smaller goes left, all else
    /// right) to a terminal, and returns its key and value when the key
    /// matches: exactly the entry `lookup` names. A missing child on the
    /// routed side answers absence; on a complete tree (the only kind the
    /// store builds) the result is pinned to `lookup`.
    pub fn search<'a>(search_key: &u64, root: &'a Box<Node>) -> (r: Option<(&'a u64, &'a Vec<
        u8,
    >)>)
        ensures
            root.complete() ==> (match root.as_tree().lookup(*search_key) {
                Some(pair) => r matches Some(p) && *p.0 == *search_key && p.1@ == pair.0,
                None => r is None,
            }),
        decreases **root,
    {
        match &**root {
            Node::Leaf { key, value, .. } => {
                if *key == *search_key {
                    Some((key, value))
                } else {
                    None
                }
            },
            Node::Inner { key, left, right, .. } => {
                if *search_key < *key {
                    match left {
                        Some(node) => Node::search(search_key, node),
                        None => None,
                    }
                } else {
                    match right {
                        Some(node) => Node::search(search_key, node),
                        None => None,
                    }
                }
            },
        }
    }
}

} // verus!
