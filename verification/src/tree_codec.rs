//! The wire format of a part tree: the number of nodes as a 64-bit
//! integer, then the nodes in depth-first pre-order, each as its
//! identifier, its depth and its part.
//!
//! Reading checks what it reads: a node deeper than its index is refused
//! at once, and the nodes that were read must form a tree.

use crate::id::Id;
use crate::part_codec::{
    enc_part, get_part, lemma_enc_read_part, lemma_read_enc_part, part_fits, put_part, read_part,
};
use crate::part_tree::{views, PartNode, PartTree};
use crate::tree_model::{lemma_depth_bound, well_formed, NodeView};
use crate::wire::{
    enc_u64, get_u64, holds, lemma_enc_read_u64, lemma_holds_join, lemma_holds_split,
    lemma_read_enc_u64, put_u64, read_u64,
};
use vstd::prelude::*;

verus! {

/// The encoding of a node.
pub open spec fn enc_node(node: NodeView) -> Seq<u8> {
    enc_u64(node.id) + enc_u64(node.depth as u64) + enc_part(node.part)
}

/// The node is small enough to be encoded.
pub open spec fn node_fits(node: NodeView) -> bool {
    node.depth <= u64::MAX && part_fits(node.part)
}

/// The node at `pos`, which is to stand at `index` in the tree. A node
/// deeper than its index is refused.
pub open spec fn read_node(b: Seq<u8>, pos: int, index: nat) -> Option<(NodeView, int)> {
    match read_u64(b, pos) {
        Some((id, p1)) => match read_u64(b, p1) {
            Some((depth, p2)) => if depth > index {
                None
            } else {
                match read_part(b, p2) {
                    Some((part, p3)) => Some((NodeView { id, depth: depth as nat, part }, p3)),
                    None => None,
                }
            },
            None => None,
        },
        None => None,
    }
}

/// A node that was encoded is read back, provided it is no deeper than
/// its index.
pub proof fn lemma_read_enc_node(b: Seq<u8>, pos: int, node: NodeView, index: nat)
    requires
        node_fits(node),
        node.depth <= index,
        holds(b, pos, enc_node(node)),
    ensures
        read_node(b, pos, index) == Some((node, pos + enc_node(node).len())),
{
    let e1 = enc_u64(node.id);
    let e2 = enc_u64(node.depth as u64);
    lemma_holds_split(b, pos, e1 + e2, enc_part(node.part));
    lemma_holds_split(b, pos, e1, e2);
    lemma_read_enc_u64(b, pos, node.id);
    lemma_read_enc_u64(b, pos + 8, node.depth as u64);
    lemma_read_enc_part(b, pos + 16, node.part);
}

/// The encoding of a run of nodes, one after the other.
pub open spec fn enc_nodes(s: Seq<NodeView>) -> Seq<u8>
    decreases s.len(),
{
    if s.len() == 0 {
        Seq::empty()
    } else {
        enc_nodes(s.drop_last()) + enc_node(s.last())
    }
}

/// The first `n` nodes of a tree, at `pos`.
pub open spec fn read_nodes(b: Seq<u8>, pos: int, n: nat) -> Option<(Seq<NodeView>, int)>
    decreases n,
{
    if n == 0 {
        Some((Seq::empty(), pos))
    } else {
        match read_nodes(b, pos, (n - 1) as nat) {
            Some((s, mid)) => match read_node(b, mid, (n - 1) as nat) {
                Some((node, next)) => Some((s.push(node), next)),
                None => None,
            },
            None => None,
        }
    }
}

/// Every node is small enough to be encoded and no deeper than its index.
pub open spec fn nodes_fit(s: Seq<NodeView>) -> bool {
    forall|i: int| 0 <= i < s.len() ==> node_fits(#[trigger] s[i]) && s[i].depth <= i
}

/// A run of nodes that was encoded is read back.
pub proof fn lemma_read_enc_nodes(b: Seq<u8>, pos: int, s: Seq<NodeView>)
    requires
        nodes_fit(s),
        holds(b, pos, enc_nodes(s)),
    ensures
        read_nodes(b, pos, s.len()) == Some((s, pos + enc_nodes(s).len())),
    decreases s.len(),
{
    if s.len() > 0 {
        let front = s.drop_last();
        lemma_holds_split(b, pos, enc_nodes(front), enc_node(s.last()));
        assert(nodes_fit(front)) by {
            assert forall|i: int| 0 <= i < front.len() implies node_fits(#[trigger] front[i])
                && front[i].depth <= i by {
                assert(front[i] == s[i]);
            }
        }
        lemma_read_enc_nodes(b, pos, front);
        assert(node_fits(s[s.len() - 1]));
        lemma_read_enc_node(b, pos + enc_nodes(front).len(), s.last(), front.len());
        assert(front.push(s.last()) =~= s);
    }
}

/// Where fewer than `n` nodes can be read, `n` cannot.
pub proof fn lemma_read_nodes_stops(b: Seq<u8>, pos: int, i: nat, n: nat)
    requires
        i <= n,
        read_nodes(b, pos, i) is None,
    ensures
        read_nodes(b, pos, n) is None,
    decreases n,
{
    if i < n {
        lemma_read_nodes_stops(b, pos, i, (n - 1) as nat);
    }
}

/// The encoding of a tree.
pub open spec fn enc_tree(s: Seq<NodeView>) -> Seq<u8> {
    enc_u64(s.len() as u64) + enc_nodes(s)
}

/// The tree is small enough to be encoded.
pub open spec fn tree_fits(s: Seq<NodeView>) -> bool {
    &&& s.len() <= u64::MAX
    &&& forall|i: int| 0 <= i < s.len() ==> node_fits(#[trigger] s[i])
}

/// The tree at `pos`.
pub open spec fn read_tree(b: Seq<u8>, pos: int) -> Option<(Seq<NodeView>, int)> {
    match read_u64(b, pos) {
        Some((n, p1)) => match read_nodes(b, p1, n as nat) {
            Some((s, p2)) => if well_formed(s) {
                Some((s, p2))
            } else {
                None
            },
            None => None,
        },
        None => None,
    }
}

/// A tree that was encoded is read back.
pub proof fn lemma_read_enc_tree(b: Seq<u8>, pos: int, s: Seq<NodeView>)
    requires
        well_formed(s),
        tree_fits(s),
        holds(b, pos, enc_tree(s)),
    ensures
        read_tree(b, pos) == Some((s, pos + enc_tree(s).len())),
{
    lemma_holds_split(b, pos, enc_u64(s.len() as u64), enc_nodes(s));
    lemma_read_enc_u64(b, pos, s.len() as u64);
    assert(nodes_fit(s)) by {
        assert forall|i: int| 0 <= i < s.len() implies node_fits(#[trigger] s[i]) && s[i].depth
            <= i by {
            lemma_depth_bound(s, i);
        }
    }
    lemma_read_enc_nodes(b, pos + 8, s);
}

/// Appends the encoding of a tree.
pub fn put_tree(out: &mut Vec<u8>, tree: &PartTree)
    ensures
        final(out)@ == old(out)@ + enc_tree(tree@),
        tree_fits(tree@),
{
    let nodes: &[PartNode] = tree.iter();
    let len: usize = nodes.len();
    put_u64(out, len as u64);
    let ghost s = tree@;
    let ghost start = out@;
    let mut i: usize = 0;
    assert(start + enc_nodes(s.subrange(0, 0)) =~= start);
    while i < len
        invariant
            i <= len,
            len == nodes@.len(),
            s == views(nodes@),
            out@ == start + enc_nodes(s.subrange(0, i as int)),
            forall|k: int| 0 <= k < i ==> node_fits(#[trigger] s[k]),
        decreases len - i,
    {
        let node: &PartNode = &nodes[i];
        put_u64(out, node.id().value());
        put_u64(out, node.depth() as u64);
        put_part(out, node.part());
        proof {
            let done = s.subrange(0, i as int);
            let more = s.subrange(0, i + 1);
            assert(more.drop_last() =~= done);
            assert(more.last() == s[i as int]);
            assert(s[i as int] == node@);
            assert(out@ =~= start + enc_nodes(more));
        }
        i += 1;
    }
    proof {
        assert(s.subrange(0, i as int) =~= s);
        assert(out@ =~= old(out)@ + enc_tree(s));
    }
}

/// Reads the tree at `pos`.
pub fn get_tree(b: &[u8], pos: usize) -> (r: Option<(PartTree, usize)>)
    ensures
        match r {
            Some((tree, next)) => read_tree(b@, pos as int) == Some((tree@, next as int))
                && tree.wf(),
            None => read_tree(b@, pos as int) is None,
        },
{
    let (n, p1) = match get_u64(b, pos) {
        Some(r) => r,
        None => {
            return None;
        },
    };
    let mut nodes: Vec<PartNode> = Vec::new();
    let mut cur: usize = p1;
    let mut i: u64 = 0;
    assert(views(nodes@) =~= Seq::empty());
    while i < n
        invariant
            i <= n,
            nodes@.len() == i,
            read_u64(b@, pos as int) == Some((n, p1 as int)),
            read_nodes(b@, p1 as int, i as nat) == Some((views(nodes@), cur as int)),
        decreases n - i,
    {
        proof {
            if read_node(b@, cur as int, i as nat) is None {
                lemma_read_nodes_stops(b@, p1 as int, (i + 1) as nat, n as nat);
            }
        }
        let (id, p2) = match get_u64(b, cur) {
            Some(r) => r,
            None => {
                return None;
            },
        };
        let (depth, p3) = match get_u64(b, p2) {
            Some(r) => r,
            None => {
                return None;
            },
        };
        if depth > i {
            return None;
        }
        let len: usize = nodes.len();
        let (part, p4) = match get_part(b, p3) {
            Some(r) => r,
            None => {
                return None;
            },
        };
        let node = PartNode::new(Id::from_value(id), depth as usize, part);
        let ghost before = views(nodes@);
        nodes.push(node);
        assert(views(nodes@) =~= before.push(node@));
        cur = p4;
        i += 1;
    }
    match PartTree::from_preorder(nodes) {
        Ok(tree) => Some((tree, cur)),
        Err(_) => None,
    }
}

/// A node that is read stands there in its encoding, is small enough to
/// be encoded, and is no deeper than its index.
pub proof fn lemma_enc_read_node(b: Seq<u8>, pos: int, index: nat)
    requires
        read_node(b, pos, index) is Some,
    ensures
        holds(b, pos, enc_node(read_node(b, pos, index)->Some_0.0)),
        read_node(b, pos, index)->Some_0.1 == pos + enc_node(
            read_node(b, pos, index)->Some_0.0,
        ).len(),
        node_fits(read_node(b, pos, index)->Some_0.0),
        read_node(b, pos, index)->Some_0.0.depth <= index,
{
    lemma_enc_read_u64(b, pos);
    lemma_enc_read_u64(b, pos + 8);
    lemma_enc_read_part(b, pos + 16);
    let node = read_node(b, pos, index)->Some_0.0;
    let e1 = enc_u64(node.id);
    let e2 = enc_u64(node.depth as u64);
    lemma_holds_join(b, pos, e1, e2);
    lemma_holds_join(b, pos, e1 + e2, enc_part(node.part));
}

/// A run of nodes that is read stands there in its encoding, and every
/// one of them is small enough to be encoded.
pub proof fn lemma_enc_read_nodes(b: Seq<u8>, pos: int, n: nat)
    requires
        0 <= pos <= b.len(),
        read_nodes(b, pos, n) is Some,
    ensures
        holds(b, pos, enc_nodes(read_nodes(b, pos, n)->Some_0.0)),
        read_nodes(b, pos, n)->Some_0.1 == pos + enc_nodes(read_nodes(b, pos, n)->Some_0.0).len(),
        read_nodes(b, pos, n)->Some_0.0.len() == n,
        forall|i: int|
            0 <= i < n ==> node_fits(#[trigger] read_nodes(b, pos, n)->Some_0.0[i]),
    decreases n,
{
    if n == 0 {
        assert(b.subrange(pos, pos) =~= Seq::<u8>::empty());
    } else {
        lemma_enc_read_nodes(b, pos, (n - 1) as nat);
        let (front, mid) = read_nodes(b, pos, (n - 1) as nat)->Some_0;
        lemma_enc_read_node(b, mid, (n - 1) as nat);
        let node = read_node(b, mid, (n - 1) as nat)->Some_0.0;
        lemma_holds_join(b, pos, enc_nodes(front), enc_node(node));
        assert(front.push(node).drop_last() =~= front);
    }
}

/// A tree that is read stands there in its encoding. It is well formed
/// and small enough to be encoded.
pub proof fn lemma_enc_read_tree(b: Seq<u8>, pos: int)
    requires
        read_tree(b, pos) is Some,
    ensures
        holds(b, pos, enc_tree(read_tree(b, pos)->Some_0.0)),
        read_tree(b, pos)->Some_0.1 == pos + enc_tree(read_tree(b, pos)->Some_0.0).len(),
        well_formed(read_tree(b, pos)->Some_0.0),
        tree_fits(read_tree(b, pos)->Some_0.0),
{
    lemma_enc_read_u64(b, pos);
    let n = read_u64(b, pos)->Some_0.0;
    lemma_enc_read_nodes(b, pos + 8, n as nat);
    let s = read_nodes(b, pos + 8, n as nat)->Some_0.0;
    lemma_holds_join(b, pos, enc_u64(n), enc_nodes(s));
}

} // verus!
