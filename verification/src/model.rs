//! The mathematical model of the tree: the content that search, insertion
//! and digest computation are specified against. A `Tree` records keys,
//! values and version stamps only; the cached heights and digests that the
//! executable nodes carry are left out, so two trees with the same `Tree`
//! hold the same data.

use vstd::prelude::*;

verus! {

/// A terminal holds one entry; a branch holds a boundary key and two
/// children. Every key strictly below the boundary lies to the left, every
/// other key to the right.
pub enum Tree {
    Leaf { key: u64, value: Seq<u8>, version: u32 },
    Branch { key: u64, left: Box<Tree>, right: Box<Tree> },
}

/// The larger of two naturals.
pub open spec fn nat_max(a: nat, b: nat) -> nat {
    if a >= b {
        a
    } else {
        b
    }
}

/// The Fibonacci numbers, used to state the height bound of a balanced tree.
pub open spec fn fib(n: nat) -> nat
    decreases n,
{
    if n == 0 {
        0
    } else if n == 1 {
        1
    } else {
        fib((n - 1) as nat) + fib((n - 2) as nat)
    }
}

impl Tree {
    /// A terminal has height 0; a branch is one taller than its taller child.
    pub open spec fn height(self) -> nat
        decreases self,
    {
        match self {
            Tree::Leaf { .. } => 0,
            Tree::Branch { left, right, .. } => 1 + nat_max(left.height(), right.height()),
        }
    }

    /// Balance factor: height of the left subtree minus height of the right.
    pub open spec fn bal(self) -> int {
        match self {
            Tree::Leaf { .. } => 0,
            Tree::Branch { left, right, .. } => left.height() - right.height(),
        }
    }

    /// Every branch's balance factor lies in -1, 0, 1.
    pub open spec fn balanced(self) -> bool
        decreases self,
    {
        match self {
            Tree::Leaf { .. } => true,
            Tree::Branch { left, right, .. } => {
                &&& -1 <= left.height() - right.height() <= 1
                &&& left.balanced()
                &&& right.balanced()
            },
        }
    }

    /// All keys in the tree: terminal keys and boundary keys alike.
    pub open spec fn key_set(self) -> Set<u64>
        decreases self,
    {
        match self {
            Tree::Leaf { key, .. } => set![key],
            Tree::Branch { key, left, right } => left.key_set().union(right.key_set()).insert(
                key,
            ),
        }
    }

    /// Every key in the tree is at most `bound`.
    pub open spec fn keys_le(self, bound: u64) -> bool {
        forall|k: u64| #[trigger] self.key_set().contains(k) ==> k <= bound
    }

    /// Every key in the tree is at least `bound`.
    pub open spec fn keys_ge(self, bound: u64) -> bool {
        forall|k: u64| #[trigger] self.key_set().contains(k) ==> k >= bound
    }

    /// The search-tree ordering: at every branch, all keys on the left are
    /// at most the boundary key and all keys on the right at least it.
    /// Keys on the left equal to the boundary can arise only from
    /// re-insertion of an existing key, which shadows the old terminal:
    /// routing (strictly below goes left) can never reach it again.
    pub open spec fn ordered(self) -> bool
        decreases self,
    {
        match self {
            Tree::Leaf { .. } => true,
            Tree::Branch { key, left, right } => {
                &&& left.keys_le(key)
                &&& right.keys_ge(key)
                &&& left.ordered()
                &&& right.ordered()
            },
        }
    }

    /// The entry that routing by the boundary keys reaches: strictly smaller
    /// keys go left, all others right, until a terminal is met. Returns that
    /// terminal's value and version stamp if its key matches.
    pub open spec fn lookup(self, key: u64) -> Option<(Seq<u8>, u32)>
        decreases self,
    {
        match self {
            Tree::Leaf { key: k, value, version } => if k == key {
                Some((value, version))
            } else {
                None
            },
            Tree::Branch { key: b, left, right } => if key < b {
                left.lookup(key)
            } else {
                right.lookup(key)
            },
        }
    }

    /// Number of terminals (entries, shadowed duplicates included).
    pub open spec fn leaf_count(self) -> nat
        decreases self,
    {
        match self {
            Tree::Leaf { .. } => 1,
            Tree::Branch { left, right, .. } => left.leaf_count() + right.leaf_count(),
        }
    }

    /// A single left rotation: the right child becomes the new root.
    /// Defined only to rearrange; on a tree without the required shape it
    /// returns the tree unchanged.
    pub open spec fn rotated_left(self) -> Tree {
        match self {
            Tree::Branch { key, left, right } => match *right {
                Tree::Branch { key: rkey, left: rleft, right: rright } => Tree::Branch {
                    key: rkey,
                    left: Box::new(Tree::Branch { key, left, right: rleft }),
                    right: rright,
                },
                _ => self,
            },
            _ => self,
        }
    }

    /// A single right rotation: the left child becomes the new root.
    pub open spec fn rotated_right(self) -> Tree {
        match self {
            Tree::Branch { key, left, right } => match *left {
                Tree::Branch { key: lkey, left: lleft, right: lright } => Tree::Branch {
                    key: lkey,
                    left: lleft,
                    right: Box::new(Tree::Branch { key, left: lright, right }),
                },
                _ => self,
            },
            _ => self,
        }
    }

    /// Restore balance to a left-heavy branch (balance factor 2): rotate the
    /// left child left first when it is right-heavy (the double rotation),
    /// then rotate the whole subtree right.
    pub open spec fn left_rebalanced(self) -> Tree {
        match self {
            Tree::Branch { key, left, right } => if left.bal() < 0 {
                (Tree::Branch { key, left: Box::new(left.rotated_left()), right }).rotated_right()
            } else {
                self.rotated_right()
            },
            _ => self,
        }
    }

    /// Restore balance to a right-heavy branch (balance factor -2), the
    /// mirror image of `left_rebalanced`.
    pub open spec fn right_rebalanced(self) -> Tree {
        match self {
            Tree::Branch { key, left, right } => if right.bal() > 0 {
                (Tree::Branch { key, left, right: Box::new(right.rotated_right()) }).rotated_left()
            } else {
                self.rotated_left()
            },
            _ => self,
        }
    }

    /// What the rebalancer returns: unchanged when the balance factor is
    /// already in -1, 0, 1, otherwise the appropriate rotation. A factor
    /// beyond 2 in magnitude cannot arise when every insertion rebalances
    /// its whole path; the function is left as the identity there.
    pub open spec fn rebalanced(self) -> Tree {
        match self {
            Tree::Leaf { .. } => self,
            Tree::Branch { left, right, .. } => {
                let d = left.height() - right.height();
                if -1 <= d <= 1 {
                    self
                } else if d == 2 {
                    self.left_rebalanced()
                } else if d == -2 {
                    self.right_rebalanced()
                } else {
                    self
                }
            },
        }
    }

    /// What insertion produces. At a terminal the entry is split in two: the
    /// new entry goes left of the old key when strictly smaller, otherwise
    /// right of the new key (so re-inserting an equal key shadows the old
    /// entry). At a branch the insertion recurses on the side the key
    /// routes to, and the result is rebalanced.
    pub open spec fn inserted(self, key: u64, value: Seq<u8>, version: u32) -> Tree
        decreases self,
    {
        match self {
            Tree::Leaf { key: k, .. } => if key < k {
                Tree::Branch {
                    key: k,
                    left: Box::new(Tree::Leaf { key, value, version }),
                    right: Box::new(self),
                }
            } else {
                Tree::Branch {
                    key,
                    left: Box::new(self),
                    right: Box::new(Tree::Leaf { key, value, version }),
                }
            },
            Tree::Branch { key: b, left, right } => {
                let grown = if key < b {
                    Tree::Branch { key: b, left: Box::new(left.inserted(key, value, version)), right }
                } else {
                    Tree::Branch { key: b, left, right: Box::new(right.inserted(key, value, version)) }
                };
                grown.rebalanced()
            },
        }
    }
}

} // verus!
