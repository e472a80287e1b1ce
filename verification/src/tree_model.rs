//! The mathematical model of a part tree.
//!
//! A tree is modelled by the sequence of its nodes in depth-first
//! pre-order, each with its depth below the root. The root stands first
//! with depth 0; every later node is at most one level deeper than the node
//! before it. The subtree of a node is the node followed by the run of
//! deeper nodes after it, and its parent is the nearest shallower node
//! before it.

use crate::id::IdValue;
use crate::part::PartView;
use vstd::prelude::*;

verus! {

/// One node of the model: its identifier, its depth below the root, and
/// the part it carries.
pub struct NodeView {
    pub id: IdValue,
    pub depth: nat,
    pub part: PartView,
}

/// The identifiers of the nodes, in order.
pub open spec fn ids(s: Seq<NodeView>) -> Seq<IdValue> {
    s.map_values(|n: NodeView| n.id)
}

/// The node at `i` is below the root and at most one level deeper than
/// the node before it.
pub open spec fn step_ok(s: Seq<NodeView>, i: int) -> bool {
    1 <= s[i].depth <= s[i - 1].depth + 1
}

/// The depths are those of a pre-order listing of one tree.
pub open spec fn shaped(s: Seq<NodeView>) -> bool {
    &&& s.len() >= 1
    &&& s[0].depth == 0
    &&& forall|i: int| 1 <= i < s.len() ==> #[trigger] step_ok(s, i)
}

/// The sequence models a tree: it has the shape of one, and no identifier
/// occurs twice.
pub open spec fn well_formed(s: Seq<NodeView>) -> bool {
    &&& shaped(s)
    &&& ids(s).no_duplicates()
}

/// The first index at or after `from` whose node has identifier `id`.
pub open spec fn position_from(s: Seq<NodeView>, id: IdValue, from: int) -> Option<int>
    decreases s.len() - from,
{
    if from < 0 || from >= s.len() {
        None
    } else if s[from].id == id {
        Some(from)
    } else {
        position_from(s, id, from + 1)
    }
}

/// The index of the first node in pre-order with identifier `id`.
pub open spec fn position(s: Seq<NodeView>, id: IdValue) -> Option<int> {
    position_from(s, id, 0)
}

/// The first index at or after `from` whose node is at depth `d` or
/// above, or the length if there is none.
pub open spec fn end_from(s: Seq<NodeView>, d: nat, from: int) -> int
    decreases s.len() - from,
{
    if from < 0 || from >= s.len() || s[from].depth <= d {
        from
    } else {
        end_from(s, d, from + 1)
    }
}

/// The index just past the subtree of the node at `i`.
pub open spec fn subtree_end(s: Seq<NodeView>, i: int) -> int {
    end_from(s, s[i].depth, i + 1)
}

/// The number of nodes in the subtree of the node at `i`, itself included.
pub open spec fn subtree_len(s: Seq<NodeView>, i: int) -> int {
    subtree_end(s, i) - i
}

/// The last index at or before `from` whose node is above depth `d`, or
/// -1 if there is none.
pub open spec fn shallower_from(s: Seq<NodeView>, d: nat, from: int) -> int
    decreases from + 1,
{
    if from < 0 || from >= s.len() {
        -1
    } else if s[from].depth < d {
        from
    } else {
        shallower_from(s, d, from - 1)
    }
}

/// The index of the parent of the node at `i`, or -1 for the root.
pub open spec fn parent_index(s: Seq<NodeView>, i: int) -> int {
    shallower_from(s, s[i].depth, i - 1)
}

/// The node at `a` is a proper ancestor of the node at `i`: it is reached
/// from `i` by going from child to parent one or more times.
pub open spec fn is_ancestor(s: Seq<NodeView>, a: int, i: int) -> bool
    decreases i,
{
    if i <= 0 || i >= s.len() {
        false
    } else {
        let p = parent_index(s, i);
        0 <= p < i && (p == a || is_ancestor(s, a, p))
    }
}

/// The tree without the subtree of the node at `i`.
pub open spec fn removed(s: Seq<NodeView>, i: int) -> Seq<NodeView> {
    s.subrange(0, i) + s.subrange(subtree_end(s, i), s.len() as int)
}

/// The tree with a new leaf as the last child of the node at `p`.
pub open spec fn inserted(s: Seq<NodeView>, p: int, id: IdValue, part: PartView) -> Seq<
    NodeView,
> {
    s.insert(subtree_end(s, p), NodeView { id, depth: s[p].depth + 1, part })
}

/// The tree with the part of the node at `i` replaced.
pub open spec fn with_part(s: Seq<NodeView>, i: int, part: PartView) -> Seq<NodeView> {
    s.update(i, NodeView { id: s[i].id, depth: s[i].depth, part })
}

/// What `position_from` returns is the first match at or after `from`.
pub proof fn lemma_position_from(s: Seq<NodeView>, id: IdValue, from: int)
    requires
        0 <= from <= s.len(),
    ensures
        match position_from(s, id, from) {
            Some(i) => from <= i < s.len() && s[i].id == id && forall|j: int|
                from <= j < i ==> s[j].id != id,
            None => forall|j: int| from <= j < s.len() ==> s[j].id != id,
        },
    decreases s.len() - from,
{
    if from < s.len() && s[from].id != id {
        lemma_position_from(s, id, from + 1);
    }
}

/// What `position` returns is the first match.
pub proof fn lemma_position(s: Seq<NodeView>, id: IdValue)
    ensures
        match position(s, id) {
            Some(i) => 0 <= i < s.len() && s[i].id == id && forall|j: int|
                0 <= j < i ==> s[j].id != id,
            None => forall|j: int| 0 <= j < s.len() ==> s[j].id != id,
        },
{
    lemma_position_from(s, id, 0);
}

/// Where identifiers are distinct, the position of a node's identifier is
/// the node's index.
pub proof fn lemma_position_of_node(s: Seq<NodeView>, i: int)
    requires
        ids(s).no_duplicates(),
        0 <= i < s.len(),
    ensures
        position(s, s[i].id) == Some(i),
{
    lemma_position(s, s[i].id);
    let k = position(s, s[i].id)->Some_0;
    if position(s, s[i].id) is None {
        assert(s[i].id != s[i].id);
    } else if k != i {
        assert(ids(s)[k] == ids(s)[i]);
    }
}

/// An identifier has a position exactly if it is among the identifiers.
pub proof fn lemma_position_contains(s: Seq<NodeView>, id: IdValue)
    ensures
        position(s, id) is Some <==> ids(s).contains(id),
{
    lemma_position(s, id);
    if position(s, id) is Some {
        let i = position(s, id)->Some_0;
        assert(ids(s)[i] == id);
    }
    if ids(s).contains(id) {
        let j = choose|j: int| 0 <= j < ids(s).len() && ids(s)[j] == id;
        assert(s[j].id == id);
    }
}

/// What `end_from` returns: every node from `from` up to it is below depth
/// `d`, and the node at it, if there is one, is not.
pub proof fn lemma_end_from(s: Seq<NodeView>, d: nat, from: int)
    requires
        0 <= from <= s.len(),
    ensures
        from <= end_from(s, d, from) <= s.len(),
        forall|k: int| from <= k < end_from(s, d, from) ==> (#[trigger] s[k]).depth > d,
        end_from(s, d, from) < s.len() ==> s[end_from(s, d, from)].depth <= d,
    decreases s.len() - from,
{
    if from < s.len() && s[from].depth > d {
        lemma_end_from(s, d, from + 1);
    }
}

/// An index that bounds a run of deeper nodes as `end_from` does is what
/// `end_from` returns.
pub proof fn lemma_end_from_unique(s: Seq<NodeView>, d: nat, from: int, e: int)
    requires
        0 <= from <= e <= s.len(),
        forall|k: int| from <= k < e ==> (#[trigger] s[k]).depth > d,
        e < s.len() ==> s[e].depth <= d,
    ensures
        end_from(s, d, from) == e,
    decreases e - from,
{
    if from < e {
        assert(s[from].depth > d);
        lemma_end_from_unique(s, d, from + 1, e);
    }
}

/// What `subtree_end` returns: the subtree of the node at `i` is the run
/// of deeper nodes that follows it.
pub proof fn lemma_subtree_end(s: Seq<NodeView>, i: int)
    requires
        0 <= i < s.len(),
    ensures
        i < subtree_end(s, i) <= s.len(),
        forall|k: int| i < k < subtree_end(s, i) ==> (#[trigger] s[k]).depth > s[i].depth,
        subtree_end(s, i) < s.len() ==> s[subtree_end(s, i)].depth <= s[i].depth,
{
    lemma_end_from(s, s[i].depth, i + 1);
}

/// In a tree, no node is deeper than its index.
pub proof fn lemma_depth_bound(s: Seq<NodeView>, i: int)
    requires
        shaped(s),
        0 <= i < s.len(),
    ensures
        s[i].depth <= i,
    decreases i,
{
    if i > 0 {
        assert(step_ok(s, i));
        lemma_depth_bound(s, i - 1);
    }
}

/// The subtree of the root is the whole tree.
pub proof fn lemma_root_subtree(s: Seq<NodeView>)
    requires
        shaped(s),
    ensures
        subtree_end(s, 0) == s.len(),
{
    assert forall|k: int| 1 <= k < s.len() implies (#[trigger] s[k]).depth > 0 by {
        assert(step_ok(s, k));
    }
    lemma_end_from_unique(s, 0, 1, s.len() as int);
}

/// What `shallower_from` returns: the nearest node at or before `from`
/// that is above depth `d`.
pub proof fn lemma_shallower_from(s: Seq<NodeView>, d: nat, from: int)
    requires
        -1 <= from < s.len(),
    ensures
        -1 <= shallower_from(s, d, from) <= from,
        forall|k: int| shallower_from(s, d, from) < k <= from ==> (#[trigger] s[k]).depth >= d,
        shallower_from(s, d, from) >= 0 ==> s[shallower_from(s, d, from)].depth < d,
    decreases from + 1,
{
    if from >= 0 && s[from].depth >= d {
        lemma_shallower_from(s, d, from - 1);
    }
}

/// Going down a run of nodes that are all at depth `d` or below it, one
/// reaches depth `d` only through depth `d - 1`: the nearest shallower
/// node before a node is exactly one level above it.
proof fn lemma_nearest_shallower_depth(s: Seq<NodeView>, i: int, p: int)
    requires
        shaped(s),
        0 <= p < i < s.len(),
        s[p].depth < s[i].depth,
        forall|k: int| p < k <= i ==> (#[trigger] s[k]).depth >= s[i].depth,
    ensures
        s[p].depth + 1 == s[i].depth,
{
    assert(step_ok(s, p + 1));
    assert(s[p + 1].depth >= s[i].depth);
}

/// Every node but the root has a parent: a node before it, one level
/// above it, whose subtree holds it.
pub proof fn lemma_parent(s: Seq<NodeView>, i: int)
    requires
        shaped(s),
        1 <= i < s.len(),
    ensures
        0 <= parent_index(s, i) < i,
        s[parent_index(s, i)].depth + 1 == s[i].depth,
        i < subtree_end(s, parent_index(s, i)),
        forall|k: int| parent_index(s, i) < k <= i ==> (#[trigger] s[k]).depth >= s[i].depth,
{
    let d = s[i].depth;
    lemma_shallower_from(s, d, i - 1);
    let p = parent_index(s, i);
    assert(step_ok(s, i));
    if p < 0 {
        assert(s[0].depth >= d);
    }
    assert forall|k: int| p < k <= i implies (#[trigger] s[k]).depth >= d by {}
    lemma_nearest_shallower_depth(s, i, p);
    lemma_subtree_end(s, p);
    let e = subtree_end(s, p);
    if e <= i {
        assert(s[e].depth >= d);
    }
}

/// The nodes of a subtree other than its root are the proper descendants
/// of that root: exactly those from which the root is reached by going
/// from child to parent.
pub proof fn lemma_subtree_is_descendants(s: Seq<NodeView>, a: int, i: int)
    requires
        shaped(s),
        0 <= a < s.len(),
        0 <= i < s.len(),
    ensures
        is_ancestor(s, a, i) <==> a < i < subtree_end(s, a),
    decreases i,
{
    lemma_subtree_end(s, a);
    if i >= 1 {
        lemma_parent(s, i);
        let p = parent_index(s, i);
        lemma_subtree_is_descendants(s, a, p);
        let e = subtree_end(s, a);
        if p == a {
        } else if is_ancestor(s, a, p) {
            // a < p < e, and every node from p to i is below depth[p] >= ... > depth[a]
            if i >= e {
                assert(s[e].depth <= s[a].depth);
                assert(s[p].depth > s[a].depth);
                assert(s[e].depth >= s[i].depth);
            }
        } else {
            // p is outside the subtree of a, or p <= a
            if a < i < e {
                if p < a {
                    assert(s[a].depth >= s[i].depth);
                    assert(s[i].depth > s[a].depth);
                } else {
                    assert(p >= e);
                }
            }
        }
    }
}

/// The identifiers of the children of the node at `i` that stand before
/// index `k`, in order: of the nodes after `i` and before `k` that are
/// exactly one level below it.
pub open spec fn children_before(s: Seq<NodeView>, i: int, k: int) -> Seq<IdValue>
    decreases k - i,
{
    if k <= i + 1 {
        Seq::empty()
    } else if s[k - 1].depth == s[i].depth + 1 {
        children_before(s, i, k - 1).push(s[k - 1].id)
    } else {
        children_before(s, i, k - 1)
    }
}

/// The identifiers of the children of the node at `i`, in order: of the
/// nodes of its subtree that are exactly one level below it.
pub open spec fn children(s: Seq<NodeView>, i: int) -> Seq<IdValue> {
    children_before(s, i, subtree_end(s, i))
}

/// A node of the subtree of `i` is counted among the children of `i`
/// exactly if `i` is its parent.
pub proof fn lemma_child_has_parent(s: Seq<NodeView>, i: int, k: int)
    requires
        shaped(s),
        0 <= i < k < subtree_end(s, i),
        k < s.len(),
    ensures
        s[k].depth == s[i].depth + 1 <==> parent_index(s, k) == i,
{
    lemma_subtree_end(s, i);
    lemma_parent(s, k);
    if s[k].depth == s[i].depth + 1 {
        lemma_shallower_from(s, s[k].depth, k - 1);
        let p = parent_index(s, k);
        if p < i {
            assert(s[i].depth >= s[k].depth);
        } else if p > i {
            assert(s[p].depth > s[i].depth);
        }
    }
}

/// The paths of the meshes of the first `k` nodes, in order.
pub open spec fn mesh_paths_before(s: Seq<NodeView>, k: int) -> Seq<Seq<char>>
    decreases k,
{
    if k <= 0 {
        Seq::empty()
    } else {
        match s[k - 1].part.placed_mesh {
            Some(m) => mesh_paths_before(s, k - 1).push(m.mesh_path),
            None => mesh_paths_before(s, k - 1),
        }
    }
}

/// The paths of the meshes of the tree, in depth-first pre-order.
pub open spec fn mesh_paths(s: Seq<NodeView>) -> Seq<Seq<char>> {
    mesh_paths_before(s, s.len() as int)
}

} // verus!
