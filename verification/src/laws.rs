//! The laws of the tree model: rotations preserve content and ordering, the
//! rebalancer restores the balance factor, insertion keeps every invariant
//! and is found by search, and a balanced tree is logarithmically shallow.

use vstd::prelude::*;

use crate::model::{fib, nat_max, Tree};

verus! {

/// The Fibonacci numbers never decrease.
pub proof fn lemma_fib_mono(i: nat, j: nat)
    requires
        i <= j,
    ensures
        fib(i) <= fib(j),
    decreases j - i,
{
    if i < j {
        lemma_fib_mono(i, (j - 1) as nat);
        if j >= 2 {
            assert(fib(j) == fib((j - 1) as nat) + fib((j - 2) as nat));
        }
    }
}

/// The height bound: a balanced tree of height h holds at least fib(h + 2)
/// entries. This is the integer form of the classic bound
/// h <= 1.44 * log2(n + 1): no insertion order can degenerate a balanced
/// tree into a chain.
pub proof fn lemma_height_bound(t: Tree)
    requires
        t.balanced(),
    ensures
        fib(t.height() + 2) <= t.leaf_count(),
    decreases t,
{
    match t {
        Tree::Leaf { .. } => {
            assert(fib(2) == fib(1) + fib(0));
        },
        Tree::Branch { left, right, .. } => {
            lemma_height_bound(*left);
            lemma_height_bound(*right);
            let hl = left.height();
            let hr = right.height();
            let h = t.height();
            assert(fib(h + 2) == fib(h + 1) + fib(h));
            if hl >= hr {
                assert(h == hl + 1);
                lemma_fib_mono(h, hr + 2);
            } else {
                assert(h == hr + 1);
                lemma_fib_mono(h, hl + 2);
            }
        },
    }
}

/// A left rotation rearranges pointers only: the key set, the entry count,
/// the ordering invariant and every lookup are preserved, and the height
/// changes by at most one.
pub proof fn lemma_rotated_left(t: Tree)
    requires
        (t matches Tree::Branch { right, .. } && *right is Branch),
    ensures
        t.rotated_left().key_set() == t.key_set(),
        t.rotated_left().leaf_count() == t.leaf_count(),
        t.rotated_left().height() <= t.height() + 1,
        t.ordered() ==> t.rotated_left().ordered(),
        t.ordered() ==> forall|k: u64| t.rotated_left().lookup(k) == t.lookup(k),
{
    match t {
        Tree::Branch { key, left, right } => match *right {
            Tree::Branch { key: rk, left: rl, right: rr } => {
                let inner = Tree::Branch { key, left, right: rl };
                let rot = Tree::Branch { key: rk, left: Box::new(inner), right: rr };
                assert(t.rotated_left() == rot);
                assert(t.key_set() == left.key_set().union(right.key_set()).insert(key));
                assert(right.key_set() == rl.key_set().union(rr.key_set()).insert(rk));
                assert(inner.key_set() == left.key_set().union(rl.key_set()).insert(key));
                assert(rot.key_set() == inner.key_set().union(rr.key_set()).insert(rk));
                assert(rot.key_set() =~= t.key_set());
                assert(t.leaf_count() == left.leaf_count() + right.leaf_count());
                assert(right.leaf_count() == rl.leaf_count() + rr.leaf_count());
                assert(inner.leaf_count() == left.leaf_count() + rl.leaf_count());
                assert(rot.leaf_count() == inner.leaf_count() + rr.leaf_count());
                assert(t.height() == 1 + nat_max(left.height(), right.height()));
                assert(right.height() == 1 + nat_max(rl.height(), rr.height()));
                assert(inner.height() == 1 + nat_max(left.height(), rl.height()));
                assert(rot.height() == 1 + nat_max(inner.height(), rr.height()));
                if t.ordered() {
                    assert(left.keys_le(key) && right.keys_ge(key));
                    assert(left.ordered() && right.ordered());
                    assert(rl.keys_le(rk) && rr.keys_ge(rk));
                    assert(rl.ordered() && rr.ordered());
                    assert(right.key_set().contains(rk));
                    assert(key <= rk);
                    assert(rl.keys_ge(key)) by {
                        assert forall|k: u64| #[trigger] rl.key_set().contains(k) implies k
                            >= key by {
                            assert(right.key_set().contains(k));
                        }
                    }
                    assert(inner.ordered());
                    assert(inner.keys_le(rk)) by {
                        assert forall|k: u64| #[trigger] inner.key_set().contains(k) implies k
                            <= rk by {
                            if left.key_set().contains(k) {
                                assert(k <= key);
                            }
                            if rl.key_set().contains(k) {
                                assert(k <= rk);
                            }
                        }
                    }
                    assert(rot.ordered());
                    assert forall|k: u64| rot.lookup(k) == t.lookup(k) by {
                        assert(t.lookup(k) == if k < key {
                            left.lookup(k)
                        } else {
                            right.lookup(k)
                        });
                        assert(right.lookup(k) == if k < rk {
                            rl.lookup(k)
                        } else {
                            rr.lookup(k)
                        });
                        assert(rot.lookup(k) == if k < rk {
                            inner.lookup(k)
                        } else {
                            rr.lookup(k)
                        });
                        assert(inner.lookup(k) == if k < key {
                            left.lookup(k)
                        } else {
                            rl.lookup(k)
                        });
                        if k < key {
                            assert(k < rk);
                        }
                    }
                }
            },
            _ => {},
        },
        _ => {},
    }
}

/// A right rotation, the mirror image of `lemma_rotated_left`.
pub proof fn lemma_rotated_right(t: Tree)
    requires
        (t matches Tree::Branch { left, .. } && *left is Branch),
    ensures
        t.rotated_right().key_set() == t.key_set(),
        t.rotated_right().leaf_count() == t.leaf_count(),
        t.rotated_right().height() <= t.height() + 1,
        t.ordered() ==> t.rotated_right().ordered(),
        t.ordered() ==> forall|k: u64| t.rotated_right().lookup(k) == t.lookup(k),
{
    match t {
        Tree::Branch { key, left, right } => match *left {
            Tree::Branch { key: lk, left: ll, right: lr } => {
                let inner = Tree::Branch { key, left: lr, right };
                let rot = Tree::Branch { key: lk, left: ll, right: Box::new(inner) };
                assert(t.rotated_right() == rot);
                assert(t.key_set() == left.key_set().union(right.key_set()).insert(key));
                assert(left.key_set() == ll.key_set().union(lr.key_set()).insert(lk));
                assert(inner.key_set() == lr.key_set().union(right.key_set()).insert(key));
                assert(rot.key_set() == ll.key_set().union(inner.key_set()).insert(lk));
                assert(rot.key_set() =~= t.key_set());
                assert(t.leaf_count() == left.leaf_count() + right.leaf_count());
                assert(left.leaf_count() == ll.leaf_count() + lr.leaf_count());
                assert(inner.leaf_count() == lr.leaf_count() + right.leaf_count());
                assert(rot.leaf_count() == ll.leaf_count() + inner.leaf_count());
                assert(t.height() == 1 + nat_max(left.height(), right.height()));
                assert(left.height() == 1 + nat_max(ll.height(), lr.height()));
                assert(inner.height() == 1 + nat_max(lr.height(), right.height()));
                assert(rot.height() == 1 + nat_max(ll.height(), inner.height()));
                if t.ordered() {
                    assert(left.keys_le(key) && right.keys_ge(key));
                    assert(left.ordered() && right.ordered());
                    assert(ll.keys_le(lk) && lr.keys_ge(lk));
                    assert(ll.ordered() && lr.ordered());
                    assert(left.key_set().contains(lk));
                    assert(lk <= key);
                    assert(lr.keys_le(key)) by {
                        assert forall|k: u64| #[trigger] lr.key_set().contains(k) implies k
                            <= key by {
                            assert(left.key_set().contains(k));
                        }
                    }
                    assert(inner.ordered());
                    assert(inner.keys_ge(lk)) by {
                        assert forall|k: u64| #[trigger] inner.key_set().contains(k) implies k
                            >= lk by {
                            if lr.key_set().contains(k) {
                                assert(k >= lk);
                            }
                            if right.key_set().contains(k) {
                                assert(k >= key);
                            }
                        }
                    }
                    assert(rot.ordered());
                    assert forall|k: u64| rot.lookup(k) == t.lookup(k) by {
                        assert(t.lookup(k) == if k < key {
                            left.lookup(k)
                        } else {
                            right.lookup(k)
                        });
                        assert(left.lookup(k) == if k < lk {
                            ll.lookup(k)
                        } else {
                            lr.lookup(k)
                        });
                        assert(rot.lookup(k) == if k < lk {
                            ll.lookup(k)
                        } else {
                            inner.lookup(k)
                        });
                        assert(inner.lookup(k) == if k < key {
                            lr.lookup(k)
                        } else {
                            right.lookup(k)
                        });
                        if k >= key {
                            assert(k >= lk);
                        }
                    }
                }
            },
            _ => {},
        },
        _ => {},
    }
}

/// Repairing a left-heavy branch (balance factor exactly 2) restores the
/// balance invariant, shrinks the height by at most one, and preserves the
/// key set, the entry count, the ordering and every lookup.
pub proof fn lemma_left_rebalanced(t: Tree)
    requires
        (t matches Tree::Branch { left, right, .. } && left.balanced() && right.balanced()
            && left.height() - right.height() == 2),
    ensures
        t.left_rebalanced().balanced(),
        t.left_rebalanced().height() == t.height() || t.left_rebalanced().height() + 1
            == t.height(),
        t.left_rebalanced().key_set() == t.key_set(),
        t.left_rebalanced().leaf_count() == t.leaf_count(),
        t.ordered() ==> t.left_rebalanced().ordered(),
        t.ordered() ==> forall|k: u64| t.left_rebalanced().lookup(k) == t.lookup(k),
{
    match t {
        Tree::Branch { key, left, right } => {
            let hr = right.height();
            assert(t.height() == 1 + nat_max(left.height(), hr));
            match *left {
                Tree::Branch { key: lk, left: a, right: b } => {
                    assert(a.balanced() && b.balanced());
                    assert(left.height() == 1 + nat_max(a.height(), b.height()));
                    if left.bal() < 0 {
                        // double rotation: the left child is right-heavy
                        assert(b.height() == a.height() + 1);
                        match *b {
                            Tree::Branch { key: bk, left: bl, right: br } => {
                                assert(bl.balanced() && br.balanced());
                                assert(b.height() == 1 + nat_max(bl.height(), br.height()));
                                lemma_rotated_left(*left);
                                let lrot = left.rotated_left();
                                let mid = Tree::Branch { key, left: Box::new(lrot), right };
                                let n1 = Tree::Branch { key: lk, left: a, right: bl };
                                assert(lrot == Tree::Branch {
                                    key: bk,
                                    left: Box::new(n1),
                                    right: br,
                                });
                                assert(t.left_rebalanced() == mid.rotated_right());
                                lemma_rotated_right(mid);
                                let n2 = Tree::Branch { key, left: br, right };
                                let res = Tree::Branch {
                                    key: bk,
                                    left: Box::new(n1),
                                    right: Box::new(n2),
                                };
                                assert(mid.rotated_right() == res);
                                assert(n1.height() == 1 + nat_max(a.height(), bl.height()));
                                assert(n2.height() == 1 + nat_max(br.height(), hr));
                                assert(res.height() == 1 + nat_max(n1.height(), n2.height()));
                                assert(n1.balanced());
                                assert(n2.balanced());
                                assert(res.balanced());
                                assert(t.key_set() == left.key_set().union(
                                    right.key_set(),
                                ).insert(key));
                                assert(mid.key_set() == lrot.key_set().union(
                                    right.key_set(),
                                ).insert(key));
                                assert(res.key_set() =~= t.key_set());
                                if t.ordered() {
                                    assert(left.keys_le(key) && right.keys_ge(key));
                                    assert(left.ordered() && right.ordered());
                                    assert(lrot.keys_le(key)) by {
                                        assert forall|k: u64| #[trigger] lrot.key_set().contains(
                                            k,
                                        ) implies k <= key by {
                                            assert(left.key_set().contains(k));
                                        }
                                    }
                                    assert(mid.ordered());
                                    assert forall|k: u64| t.left_rebalanced().lookup(k)
                                        == t.lookup(k) by {
                                        assert(mid.rotated_right().lookup(k) == mid.lookup(k));
                                        assert(mid.lookup(k) == if k < key {
                                            lrot.lookup(k)
                                        } else {
                                            right.lookup(k)
                                        });
                                        assert(t.lookup(k) == if k < key {
                                            left.lookup(k)
                                        } else {
                                            right.lookup(k)
                                        });
                                        assert(left.rotated_left().lookup(k) == left.lookup(k));
                                    }
                                }
                            },
                            _ => {
                                assert(false);
                            },
                        }
                    } else {
                        // single rotation: the left child is not right-heavy
                        lemma_rotated_right(t);
                        let inner = Tree::Branch { key, left: b, right };
                        let res = Tree::Branch { key: lk, left: a, right: Box::new(inner) };
                        assert(t.rotated_right() == res);
                        assert(t.left_rebalanced() == res);
                        assert(inner.height() == 1 + nat_max(b.height(), hr));
                        assert(res.height() == 1 + nat_max(a.height(), inner.height()));
                        assert(inner.balanced());
                        assert(res.balanced());
                    }
                },
                _ => {
                    assert(false);
                },
            }
        },
        _ => {},
    }
}

/// Repairing a right-heavy branch (balance factor exactly -2), the mirror
/// image of `lemma_left_rebalanced`.
pub proof fn lemma_right_rebalanced(t: Tree)
    requires
        (t matches Tree::Branch { left, right, .. } && left.balanced() && right.balanced()
            && left.height() - right.height() == -2),
    ensures
        t.right_rebalanced().balanced(),
        t.right_rebalanced().height() == t.height() || t.right_rebalanced().height() + 1
            == t.height(),
        t.right_rebalanced().key_set() == t.key_set(),
        t.right_rebalanced().leaf_count() == t.leaf_count(),
        t.ordered() ==> t.right_rebalanced().ordered(),
        t.ordered() ==> forall|k: u64| t.right_rebalanced().lookup(k) == t.lookup(k),
{
    match t {
        Tree::Branch { key, left, right } => {
            let hl = left.height();
            assert(t.height() == 1 + nat_max(hl, right.height()));
            match *right {
                Tree::Branch { key: rk, left: a, right: b } => {
                    assert(a.balanced() && b.balanced());
                    assert(right.height() == 1 + nat_max(a.height(), b.height()));
                    if right.bal() > 0 {
                        // double rotation: the right child is left-heavy
                        assert(a.height() == b.height() + 1);
                        match *a {
                            Tree::Branch { key: ak, left: al, right: ar } => {
                                assert(al.balanced() && ar.balanced());
                                assert(a.height() == 1 + nat_max(al.height(), ar.height()));
                                lemma_rotated_right(*right);
                                let rrot = right.rotated_right();
                                let mid = Tree::Branch { key, left, right: Box::new(rrot) };
                                let n2 = Tree::Branch { key: rk, left: ar, right: b };
                                assert(rrot == Tree::Branch {
                                    key: ak,
                                    left: al,
                                    right: Box::new(n2),
                                });
                                assert(t.right_rebalanced() == mid.rotated_left());
                                lemma_rotated_left(mid);
                                let n1 = Tree::Branch { key, left, right: al };
                                let res = Tree::Branch {
                                    key: ak,
                                    left: Box::new(n1),
                                    right: Box::new(n2),
                                };
                                assert(mid.rotated_left() == res);
                                assert(n1.height() == 1 + nat_max(hl, al.height()));
                                assert(n2.height() == 1 + nat_max(ar.height(), b.height()));
                                assert(res.height() == 1 + nat_max(n1.height(), n2.height()));
                                assert(n1.balanced());
                                assert(n2.balanced());
                                assert(res.balanced());
                                assert(t.key_set() == left.key_set().union(
                                    right.key_set(),
                                ).insert(key));
                                assert(mid.key_set() == left.key_set().union(
                                    rrot.key_set(),
                                ).insert(key));
                                assert(res.key_set() =~= t.key_set());
                                if t.ordered() {
                                    assert(left.keys_le(key) && right.keys_ge(key));
                                    assert(left.ordered() && right.ordered());
                                    assert(rrot.keys_ge(key)) by {
                                        assert forall|k: u64| #[trigger] rrot.key_set().contains(
                                            k,
                                        ) implies k >= key by {
                                            assert(right.key_set().contains(k));
                                        }
                                    }
                                    assert(mid.ordered());
                                    assert forall|k: u64| t.right_rebalanced().lookup(k)
                                        == t.lookup(k) by {
                                        assert(mid.rotated_left().lookup(k) == mid.lookup(k));
                                        assert(mid.lookup(k) == if k < key {
                                            left.lookup(k)
                                        } else {
                                            rrot.lookup(k)
                                        });
                                        assert(t.lookup(k) == if k < key {
                                            left.lookup(k)
                                        } else {
                                            right.lookup(k)
                                        });
                                        assert(right.rotated_right().lookup(k) == right.lookup(k));
                                    }
                                }
                            },
                            _ => {
                                assert(false);
                            },
                        }
                    } else {
                        // single rotation: the right child is not left-heavy
                        lemma_rotated_left(t);
                        let inner = Tree::Branch { key, left, right: a };
                        let res = Tree::Branch { key: rk, left: Box::new(inner), right: b };
                        assert(t.rotated_left() == res);
                        assert(t.right_rebalanced() == res);
                        assert(inner.height() == 1 + nat_max(hl, a.height()));
                        assert(res.height() == 1 + nat_max(inner.height(), b.height()));
                        assert(inner.balanced());
                        assert(res.balanced());
                    }
                },
                _ => {
                    assert(false);
                },
            }
        },
        _ => {},
    }
}

/// The rebalancer restores the balance invariant whenever the factor is off
/// by at most one step (the only situation a single insertion can create),
/// and preserves the key set, the entry count, the ordering and every
/// lookup. A subtree already in balance is returned unchanged, and the
/// height shrinks by at most one.
pub proof fn lemma_rebalanced(t: Tree)
    requires
        (t matches Tree::Branch { left, right, .. } && left.balanced() && right.balanced() && -2
            <= left.height() - right.height() <= 2),
    ensures
        t.rebalanced().balanced(),
        t.rebalanced().height() == t.height() || t.rebalanced().height() + 1 == t.height(),
        -1 <= t.bal() <= 1 ==> t.rebalanced() == t,
        t.rebalanced().key_set() == t.key_set(),
        t.rebalanced().leaf_count() == t.leaf_count(),
        t.ordered() ==> t.rebalanced().ordered(),
        t.ordered() ==> forall|k: u64| t.rebalanced().lookup(k) == t.lookup(k),
{
    match t {
        Tree::Branch { key, left, right } => {
            let d = left.height() - right.height();
            if -1 <= d <= 1 {
                assert(t.rebalanced() == t);
                assert(t.balanced());
            } else if d == 2 {
                lemma_left_rebalanced(t);
            } else {
                lemma_right_rebalanced(t);
            }
        },
        _ => {},
    }
}

/// What a single insertion does: it keeps the tree balanced and ordered,
/// adds exactly the new key to the key set and one terminal to the count,
/// grows the height by at most one, is itself found by a search for its key
/// (the upsert policy: the newest entry for a key shadows older ones), and
/// leaves the entry every other key reaches unchanged.
pub proof fn lemma_inserted(t: Tree, key: u64, value: Seq<u8>, version: u32)
    requires
        t.balanced(),
    ensures
        t.inserted(key, value, version).balanced(),
        t.height() <= t.inserted(key, value, version).height() <= t.height() + 1,
        t.inserted(key, value, version).key_set() == t.key_set().insert(key),
        t.inserted(key, value, version).leaf_count() == t.leaf_count() + 1,
        t.ordered() ==> t.inserted(key, value, version).ordered(),
        t.ordered() ==> t.inserted(key, value, version).lookup(key) == Some((value, version)),
        t.ordered() ==> forall|k2: u64|
            k2 != key ==> t.inserted(key, value, version).lookup(k2) == t.lookup(k2),
    decreases t,
{
    let r = t.inserted(key, value, version);
    match t {
        Tree::Leaf { key: k, value: v, version: ver } => {
            let fresh = Tree::Leaf { key, value, version };
            if key < k {
                assert(r == Tree::Branch { key: k, left: Box::new(fresh), right: Box::new(t) });
                assert(r.key_set() == fresh.key_set().union(t.key_set()).insert(k));
                assert(r.key_set() =~= t.key_set().insert(key));
                assert(r.height() == 1 + nat_max(fresh.height(), t.height()));
                assert(fresh.balanced() && fresh.ordered());
                assert(r.balanced());
                assert(r.leaf_count() == fresh.leaf_count() + t.leaf_count());
                assert(r.ordered()) by {
                    assert forall|j: u64| #[trigger] fresh.key_set().contains(j) implies j
                        <= k by {}
                    assert forall|j: u64| #[trigger] t.key_set().contains(j) implies j >= k by {}
                    assert(fresh.keys_le(k) && t.keys_ge(k));
                    assert(t.ordered());
                }
                assert(r.lookup(key) == fresh.lookup(key));
                assert forall|k2: u64| k2 != key implies r.lookup(k2) == t.lookup(k2) by {
                    if k2 < k {
                        assert(r.lookup(k2) == fresh.lookup(k2));
                    } else {
                        assert(r.lookup(k2) == t.lookup(k2));
                    }
                }
            } else {
                assert(r == Tree::Branch { key, left: Box::new(t), right: Box::new(fresh) });
                assert(r.key_set() == t.key_set().union(fresh.key_set()).insert(key));
                assert(r.key_set() =~= t.key_set().insert(key));
                assert(r.height() == 1 + nat_max(t.height(), fresh.height()));
                assert(fresh.balanced() && fresh.ordered());
                assert(r.balanced());
                assert(r.leaf_count() == t.leaf_count() + fresh.leaf_count());
                assert(r.ordered()) by {
                    assert forall|j: u64| #[trigger] t.key_set().contains(j) implies j
                        <= key by {}
                    assert forall|j: u64| #[trigger] fresh.key_set().contains(j) implies j
                        >= key by {}
                    assert(t.keys_le(key) && fresh.keys_ge(key));
                    assert(t.ordered());
                }
                assert(r.lookup(key) == fresh.lookup(key));
                assert forall|k2: u64| k2 != key implies r.lookup(k2) == t.lookup(k2) by {
                    if k2 < key {
                        assert(r.lookup(k2) == t.lookup(k2));
                    } else {
                        assert(r.lookup(k2) == fresh.lookup(k2));
                        assert(fresh.lookup(k2) is None);
                        if k2 == k {
                            assert(k < key || k == key);
                            assert(k2 < key || k2 == key);
                            assert(false);
                        }
                        assert(t.lookup(k2) is None);
                    }
                }
            }
        },
        Tree::Branch { key: b, left, right } => {
            assert(left.balanced() && right.balanced());
            assert(t.height() == 1 + nat_max(left.height(), right.height()));
            if key < b {
                lemma_inserted(*left, key, value, version);
                let nl = left.inserted(key, value, version);
                let grown = Tree::Branch { key: b, left: Box::new(nl), right };
                assert(r == grown.rebalanced());
                assert(grown.height() == 1 + nat_max(nl.height(), right.height()));
                lemma_rebalanced(grown);
                assert(grown.key_set() == nl.key_set().union(right.key_set()).insert(b));
                assert(t.key_set() == left.key_set().union(right.key_set()).insert(b));
                assert(grown.key_set() =~= t.key_set().insert(key));
                // the rebalancer shrinks only a subtree that an insertion grew
                assert(t.height() <= r.height() <= t.height() + 1);
                if t.ordered() {
                    assert(left.keys_le(b) && right.keys_ge(b));
                    assert(left.ordered() && right.ordered());
                    assert(grown.ordered()) by {
                        assert forall|k2: u64| #[trigger] nl.key_set().contains(k2) implies k2
                            <= b by {
                            assert(left.key_set().insert(key).contains(k2));
                        }
                    }
                    assert(r.lookup(key) == grown.lookup(key));
                    assert(grown.lookup(key) == nl.lookup(key));
                    assert forall|k2: u64| k2 != key implies r.lookup(k2) == t.lookup(k2) by {
                        assert(r.lookup(k2) == grown.lookup(k2));
                        if k2 < b {
                            assert(grown.lookup(k2) == nl.lookup(k2));
                            assert(nl.lookup(k2) == left.lookup(k2));
                        } else {
                            assert(grown.lookup(k2) == right.lookup(k2));
                        }
                    }
                }
            } else {
                lemma_inserted(*right, key, value, version);
                let nr = right.inserted(key, value, version);
                let grown = Tree::Branch { key: b, left, right: Box::new(nr) };
                assert(r == grown.rebalanced());
                assert(grown.height() == 1 + nat_max(left.height(), nr.height()));
                lemma_rebalanced(grown);
                assert(grown.key_set() == left.key_set().union(nr.key_set()).insert(b));
                assert(t.key_set() == left.key_set().union(right.key_set()).insert(b));
                assert(grown.key_set() =~= t.key_set().insert(key));
                assert(t.height() <= r.height() <= t.height() + 1);
                if t.ordered() {
                    assert(left.keys_le(b) && right.keys_ge(b));
                    assert(left.ordered() && right.ordered());
                    assert(grown.ordered()) by {
                        assert forall|k2: u64| #[trigger] nr.key_set().contains(k2) implies k2
                            >= b by {
                            assert(right.key_set().insert(key).contains(k2));
                        }
                    }
                    assert(r.lookup(key) == grown.lookup(key));
                    assert(grown.lookup(key) == nr.lookup(key));
                    assert forall|k2: u64| k2 != key implies r.lookup(k2) == t.lookup(k2) by {
                        assert(r.lookup(k2) == grown.lookup(k2));
                        if k2 < b {
                            assert(grown.lookup(k2) == left.lookup(k2));
                        } else {
                            assert(grown.lookup(k2) == nr.lookup(k2));
                            assert(nr.lookup(k2) == right.lookup(k2));
                        }
                    }
                }
            }
        },
    }
}

/// A search for a key the tree does not hold reports absence.
pub proof fn lemma_lookup_absent(t: Tree, key: u64)
    requires
        !t.key_set().contains(key),
    ensures
        t.lookup(key) is None,
    decreases t,
{
    match t {
        Tree::Leaf { .. } => {},
        Tree::Branch { key: b, left, right } => {
            assert(t.key_set() == left.key_set().union(right.key_set()).insert(b));
            assert(!left.key_set().contains(key) && !right.key_set().contains(key));
            lemma_lookup_absent(*left, key);
            lemma_lookup_absent(*right, key);
        },
    }
}

} // verus!
