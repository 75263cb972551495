//! The recursive node type and its structural bookkeeping: constructors,
//! cached heights, and the view that ties a node to its mathematical `Tree`.

use vstd::prelude::*;

use crate::model::{nat_max, Tree};

verus! {

/// A node is either a terminal entry (key, value, version stamp, cached
/// digest) or an internal separator (boundary key, children, cached height,
/// cached digest, version stamp). The digest caches are filled by
/// `update_hash` and go stale under rotation; nothing here trusts them.
pub enum Node {
    Leaf { key: u64, value: Vec<u8>, version: u32, hash: Option<[u8; 32]> },
    Inner {
        left: Option<Box<Node>>,
        right: Option<Box<Node>>,
        key: u64,
        hash: Option<[u8; 32]>,
        height: u8,
        version: u32,
    },
}

impl Node {
    /// The data a node holds, with the caches erased. A branch grown by this
    /// library always carries both children; an absent child never arises,
    /// and the view of such a node is left unspecified.
    pub open spec fn as_tree(self) -> Tree
        decreases self,
    {
        match self {
            Node::Leaf { key, value, version, .. } => Tree::Leaf { key, value: value@, version },
            Node::Inner { key, left, right, .. } => Tree::Branch {
                key,
                left: Box::new(
                    match left {
                        Some(l) => l.as_tree(),
                        None => arbitrary(),
                    },
                ),
                right: Box::new(
                    match right {
                        Some(r) => r.as_tree(),
                        None => arbitrary(),
                    },
                ),
            },
        }
    }

    /// Every branch carries both children.
    pub open spec fn complete(self) -> bool
        decreases self,
    {
        match self {
            Node::Leaf { .. } => true,
            Node::Inner { left, right, .. } => match (left, right) {
                (Some(l), Some(r)) => l.complete() && r.complete(),
                _ => false,
            },
        }
    }

    /// Every branch carries both children and every cached height equals the
    /// height of the data it summarizes.
    pub open spec fn heights_ok(self) -> bool
        decreases self,
    {
        match self {
            Node::Leaf { .. } => true,
            Node::Inner { left, right, height, .. } => match (left, right) {
                (Some(l), Some(r)) => {
                    &&& l.heights_ok()
                    &&& r.heights_ok()
                    &&& height as nat == 1 + nat_max(l.as_tree().height(), r.as_tree().height())
                },
                _ => false,
            },
        }
    }

    /// Constructs a terminal entry with no cached digest.
    pub fn new_leaf(key: u64, value: Vec<u8>, version: u32) -> (r: Self)
        ensures
            r.as_tree() == (Tree::Leaf { key, value: value@, version }),
            r.heights_ok(),
    {
        Node::Leaf { key, value, hash: None, version }
    }

    /// Constructs a branch from a boundary key and two already-built
    /// children, with height 1 and no cached digest. The cached height is
    /// provisional: it is correct only over two terminals, and every caller
    /// that joins taller subtrees recomputes it with `update_height` before
    /// relying on it.
    pub fn new_inner(key: u64, left: Box<Node>, right: Box<Node>, version: u32) -> (r: Node)
        ensures
            r == (Node::Inner {
                key,
                left: Some(left),
                right: Some(right),
                hash: None,
                height: 1,
                version,
            }),
    {
        Node::Inner { key, left: Some(left), right: Some(right), hash: None, height: 1, version }
    }

    /// Reads the height of an optional subtree: 0 when absent, 0 at a
    /// terminal, the cached height at a branch.
    pub fn height(root: &Option<Box<Node>>) -> (h: u8)
        requires
            (match root {
                Some(n) => n.heights_ok(),
                None => true,
            }),
        ensures
            h as nat == (match root {
                Some(n) => n.as_tree().height(),
                None => 0,
            }),
    {
        match root {
            Some(node) => match &**node {
                Node::Inner { height, .. } => *height,
                Node::Leaf { .. } => 0,
            },
            None => 0,
        }
    }

    /// Same reading as `height`, kept for the rebalancer's internal use.
    pub(crate) fn get_height(root: &Option<Box<Node>>) -> (h: u8)
        requires
            (match root {
                Some(n) => n.heights_ok(),
                None => true,
            }),
        ensures
            h as nat == (match root {
                Some(n) => n.as_tree().height(),
                None => 0,
            }),
    {
        match root.as_ref() {
            None => 0,
            Some(node) => match &**node {
                Node::Leaf { .. } => 0,
                Node::Inner { height, .. } => *height,
            },
        }
    }

    /// Recomputes a branch's cached height from its children's current
    /// cached heights; a terminal is left untouched.
    pub(crate) fn update_height(root: &mut Box<Node>)
        requires
            (match **old(root) {
                Node::Inner { left, right, .. } => match (left, right) {
                    (Some(l), Some(r)) => l.heights_ok() && r.heights_ok(),
                    _ => false,
                },
                Node::Leaf { .. } => true,
            }),
            old(root).as_tree().height() <= 255,
        ensures
            final(root).as_tree() == old(root).as_tree(),
            final(root).heights_ok(),
    {
        let mut tmp: Box<Node> = Box::new(
            Node::Leaf { key: 0, value: Vec::new(), hash: None, version: 0 },
        );
        std::mem::swap(root, &mut tmp);
        match *tmp {
            Node::Inner { left, right, key, hash, version, height: _ } => {
                let hl = Node::get_height(&left);
                let hr = Node::get_height(&right);
                let h = (if hl > hr {
                    hl
                } else {
                    hr
                }) + 1;
                *root = Box::new(Node::Inner { left, right, key, hash, height: h, version });
            },
            Node::Leaf { key, value, version, hash } => {
                *root = Box::new(Node::Leaf { key, value, version, hash });
            },
        }
    }

    /// Cached balance factor of a subtree: left height minus right height,
    /// 0 at a terminal.
    pub(crate) fn height_difference(root: &Box<Node>) -> (d: i8)
        requires
            root.heights_ok(),
            root.as_tree().height() <= 126,
        ensures
            d as int == root.as_tree().bal(),
    {
        match &**root {
            Node::Leaf { .. } => 0,
            Node::Inner { left, right, .. } => {
                let l = Node::get_height(left);
                let r = Node::get_height(right);
                (l as i8) - (r as i8)
            },
        }
    }
}

impl View for Node {
    type V = Tree;

    open spec fn view(&self) -> Tree {
        self.as_tree()
    }
}

/// Copies a byte vector; the copy holds exactly the same bytes.
pub(crate) fn copy_bytes(v: &Vec<u8>) -> (out: Vec<u8>)
    ensures
        out@ == v@,
{
    let mut out: Vec<u8> = Vec::new();
    let mut i: usize = 0;
    while i < v.len()
        invariant
            i <= v.len(),
            out@ == v@.subrange(0, i as int),
        decreases v.len() - i,
    {
        out.push(v[i]);
        proof {
            assert(out@ =~= v@.subrange(0, i + 1));
        }
        i = i + 1;
    }
    proof {
        assert(out@ =~= v@);
    }
    out
}

impl Clone for Node {
    /// A deep copy: the same data, with the caches carried over, so a tree
    /// with correct height caches clones to one with correct height caches.
    fn clone(&self) -> (r: Self)
        ensures
            r.as_tree() == self.as_tree(),
            self.heights_ok() ==> r.heights_ok(),
            self.complete() ==> r.complete(),
        decreases *self,
    {
        match self {
            Node::Leaf { key, value, version, hash } => Node::Leaf {
                key: *key,
                value: copy_bytes(value),
                version: *version,
                hash: *hash,
            },
            Node::Inner { left, right, key, hash, height, version } => Node::Inner {
                left: match left {
                    Some(l) => Some(Box::new((&**l).clone())),
                    None => None,
                },
                right: match right {
                    Some(r_child) => Some(Box::new((&**r_child).clone())),
                    None => None,
                },
                key: *key,
                hash: *hash,
                height: *height,
                version: *version,
            },
        }
    }
}

} // verus!
