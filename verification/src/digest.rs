//! The digest engine: a post-order walk that hashes every terminal's key,
//! version and value, combines children's digests at every branch (left then
//! right), caches the results, and returns the Merkle root. The hash itself
//! is SHA3-256 from an outside crate; its output is named `sha3_of` and the
//! whole engine is specified over that name.

use vstd::prelude::*;

use crate::model::Tree;
use crate::node::Node;

use crypto::digest::Digest;

verus! {

/// What SHA3-256 returns on the given input bytes: a function of the input
/// alone, named here so that contracts can speak of it exactly.
pub uninterp spec fn sha3_of(input: Seq<u8>) -> Seq<u8>;

/// The reserved placeholder digest, 32 zero bytes: the digest of an empty
/// tree, and the contribution of an absent child.
pub open spec fn placeholder_digest() -> Seq<u8> {
    Seq::new(32, |i: int| 0u8)
}

/// The bytes a terminal's digest binds: its key (8 little-endian bytes),
/// its version stamp (4 little-endian bytes), then its value. The two
/// fixed-width fields come first, so distinct (key, version, value) triples
/// give distinct byte strings.
pub open spec fn leaf_bytes(key: u64, value: Seq<u8>, version: u32) -> Seq<u8> {
    vstd::bytes::spec_u64_to_le_bytes(key) + vstd::bytes::spec_u32_to_le_bytes(version) + value
}

/// The digest of a tree: a terminal hashes its own entry; a branch hashes
/// its children's digests, left then right. The digest is a function of the
/// data alone: recomputing without mutation cannot change it, and two trees
/// holding the same data have the same root digest.
pub open spec fn digest_of(t: Tree) -> Seq<u8>
    decreases t,
{
    match t {
        Tree::Leaf { key, value, version } => sha3_of(leaf_bytes(key, value, version)),
        Tree::Branch { left, right, .. } => sha3_of(digest_of(*left) + digest_of(*right)),
    }
}

/// The digest of an optional root: the placeholder for an empty tree.
pub open spec fn root_digest(root: Option<Tree>) -> Seq<u8> {
    match root {
        Some(t) => digest_of(t),
        None => placeholder_digest(),
    }
}

/// Relies on rust-crypto's `Sha3::sha3_256` with `Digest::input` and
/// `Digest::result`: SHA3-256 fills the 32-byte output with a digest that is
/// a function of the input bytes alone.
#[verifier::external_body]
fn sha3_256(data: &[u8]) -> (r: [u8; 32])
    ensures
        r@ == sha3_of(data@),
{
    let mut hasher = crypto::sha3::Sha3::sha3_256();
    hasher.input(data);
    let mut out = [0u8; 32];
    hasher.result(&mut out);
    out
}

impl Node {
    /// Every digest cache in the subtree is filled and correct for the data
    /// it summarizes. Rotations leave caches stale; `update_hash` restores
    /// this state.
    pub open spec fn hashes_ok(self) -> bool
        decreases self,
    {
        match self {
            Node::Leaf { hash, .. } => {
                hash matches Some(h) && h@ == digest_of(self.as_tree())
            },
            Node::Inner { left, right, hash, .. } => {
                &&& (hash matches Some(h) && h@ == digest_of(self.as_tree()))
                &&& (match left {
                    Some(l) => l.hashes_ok(),
                    None => true,
                })
                &&& (match right {
                    Some(r) => r.hashes_ok(),
                    None => true,
                })
            },
        }
    }

    /// The post-order walk: recomputes and caches every digest below the
    /// node and returns the node's own digest.
    fn rehash(node: Box<Node>) -> (res: (Box<Node>, [u8; 32]))
        requires
            node.heights_ok(),
        ensures
            res.0.as_tree() == node.as_tree(),
            res.0.heights_ok(),
            res.0.hashes_ok(),
            res.1@ == digest_of(node.as_tree()),
        decreases *node,
    {
        match *node {
            Node::Leaf { key, value, version, hash: _ } => {
                let mut buf = vstd::bytes::u64_to_le_bytes(key);
                let mut version_bytes = vstd::bytes::u32_to_le_bytes(version);
                buf.append(&mut version_bytes);
                let ghost prefix = buf@;
                let mut i: usize = 0;
                while i < value.len()
                    invariant
                        i <= value.len(),
                        buf@ == prefix + value@.subrange(0, i as int),
                    decreases value.len() - i,
                {
                    buf.push(value[i]);
                    proof {
                        assert(buf@ =~= prefix + value@.subrange(0, i + 1));
                    }
                    i = i + 1;
                }
                proof {
                    assert(value@.subrange(0, value.len() as int) =~= value@);
                    assert(buf@ =~= leaf_bytes(key, value@, version));
                }
                let h = sha3_256(buf.as_slice());
                let out = Box::new(Node::Leaf { key, value, version, hash: Some(h) });
                proof {
                    assert(out.as_tree() == node.as_tree());
                }
                (out, h)
            },
            Node::Inner { key, left, right, hash: _, height, version } => {
                let l = match left {
                    Some(l) => l,
                    None => unreached(),
                };
                let r = match right {
                    Some(r) => r,
                    None => unreached(),
                };
                let (l2, hl) = Node::rehash(l);
                let (r2, hr) = Node::rehash(r);
                let mut buf: Vec<u8> = Vec::new();
                let mut i: usize = 0;
                while i < 32
                    invariant
                        i <= 32,
                        buf@ == hl@.subrange(0, i as int),
                    decreases 32 - i,
                {
                    buf.push(hl[i]);
                    proof {
                        assert(buf@ =~= hl@.subrange(0, i + 1));
                    }
                    i = i + 1;
                }
                proof {
                    assert(hl@.subrange(0, 32) =~= hl@);
                }
                let mut j: usize = 0;
                while j < 32
                    invariant
                        j <= 32,
                        buf@ == hl@ + hr@.subrange(0, j as int),
                    decreases 32 - j,
                {
                    buf.push(hr[j]);
                    proof {
                        assert(buf@ =~= hl@ + hr@.subrange(0, j + 1));
                    }
                    j = j + 1;
                }
                proof {
                    assert(hr@.subrange(0, 32) =~= hr@);
                    assert(buf@ =~= hl@ + hr@);
                }
                let h = sha3_256(buf.as_slice());
                let out = Box::new(
                    Node::Inner {
                        key,
                        left: Some(l2),
                        right: Some(r2),
                        hash: Some(h),
                        height,
                        version,
                    },
                );
                proof {
                    assert(out.as_tree() == node.as_tree());
                    assert(h@ == digest_of(out.as_tree()));
                }
                (out, h)
            },
        }
    }

    /// Recomputes the digest of every node in the subtree, caches the
    /// results, and returns the subtree's digest. The data is untouched:
    /// only the caches change.
    pub fn update_hash(root: &mut Box<Node>) -> (h: [u8; 32])
        requires
            old(root).heights_ok(),
        ensures
            final(root).as_tree() == old(root).as_tree(),
            final(root).heights_ok(),
            final(root).hashes_ok(),
            h@ == digest_of(old(root).as_tree()),
    {
        let mut tmp: Box<Node> = Box::new(
            Node::Leaf { key: 0, value: Vec::new(), hash: None, version: 0 },
        );
        std::mem::swap(root, &mut tmp);
        let (fresh, h) = Node::rehash(tmp);
        *root = fresh;
        h
    }
}

} // verus!
