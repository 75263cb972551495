//! The rebalancer: single and double rotations and the balance dispatch.
//! Each operation's contract states exactly which rearrangement of the data
//! it performs, in terms of the model's rotation functions; the facts that
//! rotation restores the balance factor and preserves ordering and content
//! are proved of those model functions in `laws`.

use vstd::prelude::*;

use crate::model::Tree;
use crate::node::Node;

verus! {

impl Node {
    /// Right rotation: the left child becomes the new subtree root. Relinks
    /// three pointers and recomputes the two affected cached heights; the
    /// digest caches go stale and are recomputed by `update_hash` later.
    pub(crate) fn rotate_right(root: Box<Node>) -> (r: Box<Node>)
        requires
            root.heights_ok(),
            root.as_tree() is Branch,
            *root.as_tree()->left is Branch,
            root.as_tree().height() <= 125,
        ensures
            r.as_tree() == root.as_tree().rotated_right(),
            r.heights_ok(),
    {
        let ghost t = root.as_tree();
        match *root {
            Node::Inner { key, left, right, hash, height: _, version } => {
                let l = match left {
                    Some(l) => l,
                    None => unreached(),
                };
                proof {
                    assert(right is Some && l.heights_ok() && right.unwrap().heights_ok());
                    assert(t.height() == 1 + crate::model::nat_max(
                        l.as_tree().height(),
                        right.unwrap().as_tree().height(),
                    ));
                }
                match *l {
                    Node::Inner {
                        key: lkey,
                        left: lleft,
                        right: lright,
                        hash: lhash,
                        height: _,
                        version: lversion,
                    } => {
                        proof {
                            assert(lleft is Some && lright is Some);
                            assert(lleft.unwrap().heights_ok() && lright.unwrap().heights_ok());
                            assert(l.as_tree().height() == 1 + crate::model::nat_max(
                                lleft.unwrap().as_tree().height(),
                                lright.unwrap().as_tree().height(),
                            ));
                        }
                        let mut lower = Box::new(
                            Node::Inner { key, left: lright, right, hash, height: 0, version },
                        );
                        Node::update_height(&mut lower);
                        let mut upper = Box::new(
                            Node::Inner {
                                key: lkey,
                                left: lleft,
                                right: Some(lower),
                                hash: lhash,
                                height: 0,
                                version: lversion,
                            },
                        );
                        Node::update_height(&mut upper);
                        upper
                    },
                    Node::Leaf { .. } => unreached(),
                }
            },
            Node::Leaf { .. } => unreached(),
        }
    }

    /// Left rotation: the right child becomes the new subtree root, the
    /// mirror image of `rotate_right`.
    pub(crate) fn rotate_left(root: Box<Node>) -> (r: Box<Node>)
        requires
            root.heights_ok(),
            root.as_tree() is Branch,
            *root.as_tree()->right is Branch,
            root.as_tree().height() <= 125,
        ensures
            r.as_tree() == root.as_tree().rotated_left(),
            r.heights_ok(),
    {
        let ghost t = root.as_tree();
        match *root {
            Node::Inner { key, left, right, hash, height: _, version } => {
                let r_child = match right {
                    Some(r_child) => r_child,
                    None => unreached(),
                };
                proof {
                    assert(left is Some && r_child.heights_ok() && left.unwrap().heights_ok());
                    assert(t.height() == 1 + crate::model::nat_max(
                        left.unwrap().as_tree().height(),
                        r_child.as_tree().height(),
                    ));
                }
                match *r_child {
                    Node::Inner {
                        key: rkey,
                        left: rleft,
                        right: rright,
                        hash: rhash,
                        height: _,
                        version: rversion,
                    } => {
                        proof {
                            assert(rleft is Some && rright is Some);
                            assert(rleft.unwrap().heights_ok() && rright.unwrap().heights_ok());
                            assert(r_child.as_tree().height() == 1 + crate::model::nat_max(
                                rleft.unwrap().as_tree().height(),
                                rright.unwrap().as_tree().height(),
                            ));
                        }
                        let mut lower = Box::new(
                            Node::Inner { key, left, right: rleft, hash, height: 0, version },
                        );
                        Node::update_height(&mut lower);
                        let mut upper = Box::new(
                            Node::Inner {
                                key: rkey,
                                left: Some(lower),
                                right: rright,
                                hash: rhash,
                                height: 0,
                                version: rversion,
                            },
                        );
                        Node::update_height(&mut upper);
                        upper
                    },
                    Node::Leaf { .. } => unreached(),
                }
            },
            Node::Leaf { .. } => unreached(),
        }
    }

    /// Repairs a left-heavy subtree: when the left child is itself
    /// right-heavy, rotate it left first (the double rotation), then rotate
    /// the whole subtree right.
    pub(crate) fn rotate_left_right(root: Box<Node>) -> (r: Box<Node>)
        requires
            root.heights_ok(),
            root.as_tree() is Branch,
            *root.as_tree()->left is Branch,
            root.as_tree().height() <= 124,
        ensures
            r.as_tree() == root.as_tree().left_rebalanced(),
            r.heights_ok(),
    {
        let ghost t = root.as_tree();
        match *root {
            Node::Inner { key, left, right, hash, height, version } => {
                let l = match left {
                    Some(l) => l,
                    None => unreached(),
                };
                proof {
                    assert(right is Some && l.heights_ok() && right.unwrap().heights_ok());
                    assert(t.height() == 1 + crate::model::nat_max(
                        l.as_tree().height(),
                        right.unwrap().as_tree().height(),
                    ));
                }
                let ghost rv = right.unwrap().as_tree();
                let dl = Node::height_difference(&l);
                let new_left = if dl < 0 {
                    proof {
                        // a strictly right-heavy subtree has a branch on its right
                        let lt = l.as_tree();
                        assert(lt->right.height() >= 1);
                        match *lt->right {
                            Tree::Leaf { .. } => assert(false),
                            Tree::Branch { .. } => {},
                        }
                        crate::laws::lemma_rotated_left(lt);
                    }
                    Node::rotate_left(l)
                } else {
                    l
                };
                let ghost nlv = new_left.as_tree();
                proof {
                    assert(nlv.height() <= t->left.height() + 1);
                    assert(nlv is Branch);
                }
                let mut mid = Box::new(
                    Node::Inner { key, left: Some(new_left), right, hash, height, version },
                );
                Node::update_height(&mut mid);
                proof {
                    assert(mid.as_tree() == (Tree::Branch {
                        key,
                        left: Box::new(nlv),
                        right: Box::new(rv),
                    }));
                    assert(mid.as_tree().height() <= 1 + crate::model::nat_max(
                        nlv.height(),
                        rv.height(),
                    ));
                }
                Node::rotate_right(mid)
            },
            Node::Leaf { .. } => unreached(),
        }
    }

    /// Repairs a right-heavy subtree, the mirror image of
    /// `rotate_left_right`.
    pub(crate) fn rotate_right_left(root: Box<Node>) -> (r: Box<Node>)
        requires
            root.heights_ok(),
            root.as_tree() is Branch,
            *root.as_tree()->right is Branch,
            root.as_tree().height() <= 124,
        ensures
            r.as_tree() == root.as_tree().right_rebalanced(),
            r.heights_ok(),
    {
        let ghost t = root.as_tree();
        match *root {
            Node::Inner { key, left, right, hash, height, version } => {
                let r_child = match right {
                    Some(r_child) => r_child,
                    None => unreached(),
                };
                proof {
                    assert(left is Some && r_child.heights_ok() && left.unwrap().heights_ok());
                    assert(t.height() == 1 + crate::model::nat_max(
                        left.unwrap().as_tree().height(),
                        r_child.as_tree().height(),
                    ));
                }
                let ghost lv = left.unwrap().as_tree();
                let dr = Node::height_difference(&r_child);
                let new_right = if dr > 0 {
                    proof {
                        // a strictly left-heavy subtree has a branch on its left
                        let rt = r_child.as_tree();
                        assert(rt->left.height() >= 1);
                        match *rt->left {
                            Tree::Leaf { .. } => assert(false),
                            Tree::Branch { .. } => {},
                        }
                        crate::laws::lemma_rotated_right(rt);
                    }
                    Node::rotate_right(r_child)
                } else {
                    r_child
                };
                let ghost nrv = new_right.as_tree();
                proof {
                    assert(nrv.height() <= t->right.height() + 1);
                    assert(nrv is Branch);
                }
                let mut mid = Box::new(
                    Node::Inner { key, left, right: Some(new_right), hash, height, version },
                );
                Node::update_height(&mut mid);
                proof {
                    assert(mid.as_tree() == (Tree::Branch {
                        key,
                        left: Box::new(lv),
                        right: Box::new(nrv),
                    }));
                    assert(mid.as_tree().height() <= 1 + crate::model::nat_max(
                        lv.height(),
                        nrv.height(),
                    ));
                }
                Node::rotate_left(mid)
            },
            Node::Leaf { .. } => unreached(),
        }
    }

    /// The balance dispatch: returns the subtree unchanged when its balance
    /// factor already lies in -1, 0, 1, otherwise rotates. A factor beyond 2
    /// in magnitude cannot arise when every insertion rebalances its whole
    /// path back to the root, so it is ruled out here.
    pub(crate) fn balance(root: Box<Node>) -> (r: Box<Node>)
        requires
            root.heights_ok(),
            -2 <= root.as_tree().bal() <= 2,
            root.as_tree().height() <= 124,
        ensures
            r.as_tree() == root.as_tree().rebalanced(),
            r.heights_ok(),
    {
        let height_diff = Node::height_difference(&root);
        if height_diff >= -1 && height_diff <= 1 {
            return root;
        }
        if height_diff == 2 {
            proof {
                let t = root.as_tree();
                assert(t->left.height() >= 2);
                match *t->left {
                    Tree::Leaf { .. } => assert(false),
                    Tree::Branch { .. } => {},
                }
            }
            Node::rotate_left_right(root)
        } else {
            proof {
                let t = root.as_tree();
                assert(t->right.height() >= 2);
                match *t->right {
                    Tree::Leaf { .. } => assert(false),
                    Tree::Branch { .. } => {},
                }
            }
            Node::rotate_right_left(root)
        }
    }
}

} // verus!
