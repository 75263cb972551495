//! The tree handle: one shared root slot guarded by a verified
//! reader/writer lock. Searches take the lock in shared mode, so any number
//! may run at once; insertion and digest recomputation take it exclusively
//! and hold it for the whole operation, descent and rebalancing cascade
//! included. The lock's predicate carries the data the store holds, so
//! every value a reader can ever borrow satisfies the full tree invariant
//! and holds exactly that data: a reader observes a complete tree, never an
//! intermediate state, and each operation's contract is stated against the
//! store's contents. Readers share the handle by reference; insertion takes
//! it exclusively, since changing the contents means giving the lock a new
//! predicate — the price of contracts that pin the stored data without
//! ghost-state plumbing.

use vstd::prelude::*;
use vstd::rwlock::{RwLock, RwLockPredicate};

use crate::digest::root_digest;
use crate::model::Tree;
use crate::node::{copy_bytes, Node};

verus! {

/// The lock's predicate: it names the data the store holds (`t`), and any
/// value the lock can contain is a tree holding exactly that data, complete
/// at every branch, with correct height caches, balanced, ordered, and
/// within the height cap that `IAVL::insert` maintains.
pub struct TreeInv {
    pub t: Option<Tree>,
}

impl RwLockPredicate<Option<Box<Node>>> for TreeInv {
    open spec fn inv(self, v: Option<Box<Node>>) -> bool {
        match (v, self.t) {
            (None, None) => true,
            (Some(n), Some(data)) => {
                &&& n.heights_ok()
                &&& n.as_tree() == data
                &&& data.balanced()
                &&& data.ordered()
                &&& data.height() <= 64
            },
            _ => false,
        }
    }
}

/// What one insertion does to the store's contents, stamped with `version`:
/// a first entry for an empty store, the model insertion otherwise.
/// Insertion is declined (the contents stay put) on a tree at the height
/// cap, a state no tree that fits in memory can reach: by the height bound
/// it would hold over fib(66) entries.
pub open spec fn contents_after_insert(
    contents: Option<Tree>,
    key: u64,
    value: Seq<u8>,
    version: u32,
) -> Option<Tree> {
    match contents {
        None => Some(Tree::Leaf { key, value, version }),
        Some(t) => if t.height() < 64 {
            Some(t.inserted(key, value, version))
        } else {
            Some(t)
        },
    }
}

/// The store: the shared root under its lock, and the version counter whose
/// current value stamps new entries. The counter is not advanced by
/// insertion itself; a caller that tracks versions sets it between batches.
pub struct IAVL {
    pub root: RwLock<Option<Box<Node>>, TreeInv>,
    pub version: u32,
}

impl IAVL {
    /// The data the store holds: the lock's predicate pins every value the
    /// lock can contain to exactly this content.
    pub open spec fn contents(self) -> Option<Tree> {
        self.root.pred().t
    }

    /// The invariants of the stored data: balanced, ordered, within the
    /// height cap. `new` establishes it and `insert` preserves it, so it
    /// holds of every store built through this interface.
    pub open spec fn contents_wf(self) -> bool {
        match self.contents() {
            None => true,
            Some(t) => t.balanced() && t.ordered() && t.height() <= 64,
        }
    }

    /// Creates an empty store with version 0.
    pub fn new() -> (r: Self)
        ensures
            r.version == 0,
            r.contents() == None::<Tree>,
            r.contents_wf(),
    {
        IAVL { root: RwLock::new(None, Ghost(TreeInv { t: None })), version: 0 }
    }

    /// Inserts a key/value pair stamped with the current version, under the
    /// exclusive lock: no reader can observe the tree between the split and
    /// the end of the rebalancing cascade. An empty store gains its first
    /// terminal; at the height cap the insertion is declined, as
    /// `contents_after_insert` states.
    pub fn insert(&mut self, new_key: u64, new_value: Vec<u8>)
        ensures
            final(self).version == old(self).version,
            final(self).contents() == contents_after_insert(
                old(self).contents(),
                new_key,
                new_value@,
                old(self).version,
            ),
            final(self).contents_wf(),
    {
        let mut taken: RwLock<Option<Box<Node>>, TreeInv> = RwLock::new(
            None,
            Ghost(TreeInv { t: None }),
        );
        std::mem::swap(&mut self.root, &mut taken);
        let t = taken.into_inner();
        let h = Node::height(&t);
        let new_t: Option<Box<Node>> = if h >= 64 {
            t
        } else {
            match t {
                None => Some(Box::new(Node::new_leaf(new_key, new_value, self.version))),
                Some(root_node) => {
                    proof {
                        crate::laws::lemma_inserted(
                            root_node.as_tree(),
                            new_key,
                            new_value@,
                            self.version,
                        );
                    }
                    Some(Node::insert(root_node, new_key, new_value, self.version))
                },
            }
        };
        let ghost model: Option<Tree> = match &new_t {
            Some(n) => Some(n.as_tree()),
            None => None,
        };
        self.root = RwLock::new(new_t, Ghost(TreeInv { t: model }));
    }

    /// Looks a key up under the shared lock and returns a copy of the
    /// currently visible value: the entry `lookup` names in the store's
    /// contents — the most recently inserted entry for that key — and
    /// absence exactly when the contents hold none.
    pub fn search(&self, key: u64) -> (r: Option<Vec<u8>>)
        ensures
            (match self.contents() {
                Some(t) => (match t.lookup(key) {
                    Some(pair) => r matches Some(v) && v@ == pair.0,
                    None => r is None,
                }),
                None => r is None,
            }),
    {
        let read_handle = self.root.acquire_read();
        let t = read_handle.borrow();
        let r = match t {
            None => None,
            Some(n) => {
                proof {
                    n.lemma_heights_ok_complete();
                }
                match Node::search(&key, n) {
                    Some((_, value)) => Some(copy_bytes(value)),
                    None => None,
                }
            },
        };
        read_handle.release_read();
        r
    }

    /// Recomputes and caches the digest of every node under the exclusive
    /// lock (it rewrites the caches) and returns the Merkle root: the digest
    /// of the store's contents, the reserved placeholder digest for an empty
    /// store. The contents themselves are untouched — only the caches
    /// change — so recomputation without an intervening mutation returns the
    /// same digest.
    pub fn save_tree(&self) -> (digest: [u8; 32])
        ensures
            digest@ == root_digest(self.contents()),
    {
        let (t, handle) = self.root.acquire_write();
        let (new_t, digest): (Option<Box<Node>>, [u8; 32]) = match t {
            None => {
                let zero = [0u8; 32];
                proof {
                    assert(zero@ =~= crate::digest::placeholder_digest());
                }
                (None, zero)
            },
            Some(root_node) => {
                let mut fresh = root_node;
                let d = Node::update_hash(&mut fresh);
                (Some(fresh), d)
            },
        };
        handle.release_write(new_t);
        digest
    }
}

} // verus!
