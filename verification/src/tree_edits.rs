//! What the three edits of a part tree do to its model: replacing the part
//! of a node, removing a subtree, and inserting a leaf.

use crate::id::IdValue;
use crate::part::PartView;
use crate::tree_model::{
    end_from, ids, inserted, lemma_end_from_unique, lemma_position, lemma_position_of_node,
    lemma_subtree_end, parent_index, position, position_from, removed, shallower_from, step_ok,
    subtree_end, subtree_len, well_formed, with_part, NodeView,
};
use vstd::prelude::*;

verus! {

/// Two sequences have the same identifiers and depths, node by node.
pub open spec fn same_skeleton(a: Seq<NodeView>, b: Seq<NodeView>) -> bool {
    &&& a.len() == b.len()
    &&& forall|i: int|
        #![trigger a[i]]
        #![trigger b[i]]
        0 <= i < a.len() ==> a[i].id == b[i].id && a[i].depth == b[i].depth
}

/// Positions depend on the identifiers only.
pub proof fn lemma_skeleton_position_from(
    a: Seq<NodeView>,
    b: Seq<NodeView>,
    id: IdValue,
    from: int,
)
    requires
        same_skeleton(a, b),
    ensures
        position_from(a, id, from) == position_from(b, id, from),
    decreases a.len() - from,
{
    if 0 <= from < a.len() {
        assert(a[from].id == b[from].id);
        lemma_skeleton_position_from(a, b, id, from + 1);
    }
}

/// Subtree ends depend on the depths only.
pub proof fn lemma_skeleton_end_from(a: Seq<NodeView>, b: Seq<NodeView>, d: nat, from: int)
    requires
        same_skeleton(a, b),
    ensures
        end_from(a, d, from) == end_from(b, d, from),
    decreases a.len() - from,
{
    if 0 <= from < a.len() {
        assert(a[from].depth == b[from].depth);
        lemma_skeleton_end_from(a, b, d, from + 1);
    }
}

/// Parents depend on the depths only.
pub proof fn lemma_skeleton_shallower_from(
    a: Seq<NodeView>,
    b: Seq<NodeView>,
    d: nat,
    from: int,
)
    requires
        same_skeleton(a, b),
    ensures
        shallower_from(a, d, from) == shallower_from(b, d, from),
    decreases from + 1,
{
    if 0 <= from < a.len() {
        assert(a[from].depth == b[from].depth);
        lemma_skeleton_shallower_from(a, b, d, from - 1);
    }
}

/// Replacing the part of a node changes that part and nothing else: the
/// tree stays a tree, every identifier keeps its position, and every node
/// keeps its parent and the extent of its subtree.
pub proof fn lemma_with_part(s: Seq<NodeView>, i: int, part: PartView)
    requires
        well_formed(s),
        0 <= i < s.len(),
    ensures
        well_formed(with_part(s, i, part)),
        same_skeleton(s, with_part(s, i, part)),
        with_part(s, i, part)[i].part == part,
        forall|k: int| 0 <= k < s.len() && k != i ==> with_part(s, i, part)[k] == s[k],
        forall|id: IdValue| #[trigger] position(with_part(s, i, part), id) == position(s, id),
        forall|k: int|
            0 <= k < s.len() ==> #[trigger] subtree_end(with_part(s, i, part), k) == subtree_end(
                s,
                k,
            ),
        forall|k: int|
            0 <= k < s.len() ==> #[trigger] parent_index(with_part(s, i, part), k) == parent_index(
                s,
                k,
            ),
{
    let t = with_part(s, i, part);
    assert(same_skeleton(s, t));
    assert(ids(t) =~= ids(s));
    assert forall|k: int| 1 <= k < t.len() implies #[trigger] step_ok(t, k) by {
        assert(step_ok(s, k));
    }
    assert forall|id: IdValue| #[trigger] position(t, id) == position(s, id) by {
        lemma_skeleton_position_from(s, t, id, 0);
    }
    assert forall|k: int| 0 <= k < s.len() implies #[trigger] subtree_end(t, k) == subtree_end(
        s,
        k,
    ) by {
        lemma_skeleton_end_from(s, t, s[k].depth, k + 1);
    }
    assert forall|k: int| 0 <= k < s.len() implies #[trigger] parent_index(t, k) == parent_index(
        s,
        k,
    ) by {
        lemma_skeleton_shallower_from(s, t, s[k].depth, k - 1);
    }
}

/// Removing the subtree of a node other than the root leaves a tree. It
/// has as many nodes fewer as the subtree had, and it holds the nodes
/// before the subtree followed by the nodes after it, unchanged.
pub proof fn lemma_removed(s: Seq<NodeView>, i: int)
    requires
        well_formed(s),
        1 <= i < s.len(),
    ensures
        well_formed(removed(s, i)),
        removed(s, i).len() == s.len() - subtree_len(s, i),
        forall|k: int| 0 <= k < i ==> #[trigger] removed(s, i)[k] == s[k],
        forall|k: int|
            i <= k < removed(s, i).len() ==> #[trigger] removed(s, i)[k] == s[k + subtree_len(s, i)],
{
    let e = subtree_end(s, i);
    let r = removed(s, i);
    let cut = e - i;
    lemma_subtree_end(s, i);
    assert forall|k: int| 1 <= k < r.len() implies #[trigger] step_ok(r, k) by {
        if k < i {
            assert(step_ok(s, k));
        } else if k == i {
            assert(step_ok(s, i));
            assert(step_ok(s, e));
        } else {
            assert(step_ok(s, k + cut));
        }
    }
    assert forall|a: int, b: int| 0 <= a < b < r.len() implies ids(r)[a] != ids(r)[b] by {
        let a0 = if a < i { a } else { a + cut };
        let b0 = if b < i { b } else { b + cut };
        assert(ids(s)[a0] != ids(s)[b0]);
    }
}

/// After the subtree of a node is removed, no identifier of that subtree
/// has a position, and every other node is found where it now stands.
pub proof fn lemma_removed_positions(s: Seq<NodeView>, i: int, k: int)
    requires
        well_formed(s),
        1 <= i < s.len(),
        0 <= k < s.len(),
    ensures
        i <= k < subtree_end(s, i) ==> position(removed(s, i), s[k].id) is None,
        k < i ==> position(removed(s, i), s[k].id) == Some(k),
        k >= subtree_end(s, i) ==> position(removed(s, i), s[k].id) == Some(
            k - subtree_len(s, i),
        ),
{
    let e = subtree_end(s, i);
    let r = removed(s, i);
    let cut = e - i;
    lemma_subtree_end(s, i);
    lemma_removed(s, i);
    if i <= k < e {
        lemma_position(r, s[k].id);
        if position(r, s[k].id) is Some {
            let j = position(r, s[k].id)->Some_0;
            let j0 = if j < i { j } else { j + cut };
            assert(r[j] == s[j0]);
            assert(ids(s)[j0] == ids(s)[k]);
        }
    } else if k < i {
        assert(r[k] == s[k]);
        lemma_position_of_node(r, k);
    } else {
        assert(r[k - cut] == s[k - cut + cut]);
        lemma_position_of_node(r, k - cut);
    }
}

/// An identifier that no node had is the identifier of no node after a
/// subtree is removed.
pub proof fn lemma_removed_adds_nothing(s: Seq<NodeView>, i: int, id: IdValue)
    requires
        well_formed(s),
        1 <= i < s.len(),
        position(s, id) is None,
    ensures
        position(removed(s, i), id) is None,
{
    let r = removed(s, i);
    lemma_subtree_end(s, i);
    lemma_removed(s, i);
    lemma_position(s, id);
    lemma_position(r, id);
    if position(r, id) is Some {
        let j = position(r, id)->Some_0;
        let j0 = if j < i { j } else { j + subtree_len(s, i) };
        assert(r[j] == s[j0]);
    }
}

/// An index that is the nearest shallower node before a position as
/// `shallower_from` finds it is what `shallower_from` returns.
pub proof fn lemma_shallower_from_unique(s: Seq<NodeView>, d: nat, from: int, p: int)
    requires
        -1 <= p <= from < s.len(),
        forall|k: int| p < k <= from ==> (#[trigger] s[k]).depth >= d,
        p >= 0 ==> s[p].depth < d,
    ensures
        shallower_from(s, d, from) == p,
    decreases from - p,
{
    if p < from {
        assert(s[from].depth >= d);
        lemma_shallower_from_unique(s, d, from - 1, p);
    }
}

/// Inserting a leaf with an unused identifier under a node leaves a tree
/// with one node more: the nodes up to the end of the parent's subtree,
/// the new leaf, and the nodes after it, unchanged.
pub proof fn lemma_inserted(s: Seq<NodeView>, p: int, id: IdValue, part: PartView)
    requires
        well_formed(s),
        0 <= p < s.len(),
        !ids(s).contains(id),
    ensures
        well_formed(inserted(s, p, id, part)),
        inserted(s, p, id, part).len() == s.len() + 1,
        inserted(s, p, id, part)[subtree_end(s, p)] == (NodeView {
            id,
            depth: s[p].depth + 1,
            part,
        }),
        forall|k: int| 0 <= k < subtree_end(s, p) ==> #[trigger] inserted(s, p, id, part)[k] == s[k],
        forall|k: int|
            subtree_end(s, p) < k <= s.len() ==> #[trigger] inserted(s, p, id, part)[k] == s[k - 1],
{
    let e = subtree_end(s, p);
    let t = inserted(s, p, id, part);
    lemma_subtree_end(s, p);
    assert forall|k: int| 1 <= k < t.len() implies #[trigger] step_ok(t, k) by {
        if k < e {
            assert(step_ok(s, k));
        } else if k == e {
            if e - 1 > p {
                assert(s[e - 1].depth > s[p].depth);
            }
        } else if k == e + 1 {
            assert(step_ok(s, e));
        } else {
            assert(step_ok(s, k - 1));
        }
    }
    assert forall|a: int, b: int| 0 <= a < b < t.len() implies ids(t)[a] != ids(t)[b] by {
        let a0 = if a < e { a } else { a - 1 };
        let b0 = if b < e { b } else { b - 1 };
        if a == e {
            assert(ids(s)[b0] == s[b0].id);
        } else if b == e {
            assert(ids(s)[a0] == s[a0].id);
        } else {
            assert(ids(s)[a0] != ids(s)[b0]);
        }
    }
}

/// The leaf that was inserted is found under its identifier. It is a
/// leaf, its parent is the node it was inserted under, and it is the last
/// node of that parent's subtree.
pub proof fn lemma_inserted_leaf(s: Seq<NodeView>, p: int, id: IdValue, part: PartView)
    requires
        well_formed(s),
        0 <= p < s.len(),
        !ids(s).contains(id),
    ensures
        position(inserted(s, p, id, part), id) == Some(subtree_end(s, p)),
        subtree_end(inserted(s, p, id, part), subtree_end(s, p)) == subtree_end(s, p) + 1,
        parent_index(inserted(s, p, id, part), subtree_end(s, p)) == p,
        subtree_end(inserted(s, p, id, part), p) == subtree_end(s, p) + 1,
{
    let e = subtree_end(s, p);
    let t = inserted(s, p, id, part);
    lemma_subtree_end(s, p);
    lemma_inserted(s, p, id, part);
    lemma_position_of_node(t, e);
    let d = s[p].depth;
    assert(t[p] == s[p]);
    // the leaf
    if e + 1 < t.len() {
        assert(t[e + 1] == s[e]);
    }
    lemma_end_from_unique(t, d + 1, e + 1, e + 1);
    // its parent
    assert forall|k: int| p < k <= e - 1 implies (#[trigger] t[k]).depth >= d + 1 by {
        assert(t[k] == s[k]);
        assert(s[k].depth > d);
    }
    lemma_shallower_from_unique(t, d + 1, e - 1, p);
    // the parent's subtree
    assert forall|k: int| p + 1 <= k < e + 1 implies (#[trigger] t[k]).depth > d by {
        if k < e {
            assert(t[k] == s[k]);
            assert(s[k].depth > d);
        }
    }
    lemma_end_from_unique(t, d, p + 1, e + 1);
}

/// After a leaf is inserted, every node that was there before is found
/// where it now stands.
pub proof fn lemma_inserted_positions(
    s: Seq<NodeView>,
    p: int,
    id: IdValue,
    part: PartView,
    k: int,
)
    requires
        well_formed(s),
        0 <= p < s.len(),
        !ids(s).contains(id),
        0 <= k < s.len(),
    ensures
        k < subtree_end(s, p) ==> position(inserted(s, p, id, part), s[k].id) == Some(k),
        k >= subtree_end(s, p) ==> position(inserted(s, p, id, part), s[k].id) == Some(k + 1),
{
    let e = subtree_end(s, p);
    let t = inserted(s, p, id, part);
    lemma_subtree_end(s, p);
    lemma_inserted(s, p, id, part);
    if k < e {
        assert(t[k] == s[k]);
        lemma_position_of_node(t, k);
    } else {
        assert(t[k + 1] == s[k + 1 - 1]);
        lemma_position_of_node(t, k + 1);
    }
}

} // verus!
