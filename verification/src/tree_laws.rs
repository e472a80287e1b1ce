//! Laws of the part tree, stated over its model.
//!
//! The operations of `PartTree` are specified by `position`, `inserted`,
//! `removed` and `with_part`. The laws below say how these fit together:
//! what was inserted is found, what was removed is not, and what was not
//! touched stays.

use crate::id::IdValue;
use crate::part::{Joint, PartSpecView, PartView, Transform, JOINT_KINDS};
use crate::part_tree::joint_cycled;
use crate::tree_edits::{
    lemma_inserted, lemma_inserted_leaf, lemma_inserted_positions, lemma_removed,
    lemma_removed_positions, lemma_with_part,
};
use crate::tree_model::{
    ids, inserted, is_ancestor, lemma_child_has_parent, lemma_parent,
    lemma_position_of_node, lemma_subtree_end, lemma_subtree_is_descendants, parent_index,
    position, removed, shaped, subtree_end, subtree_len, well_formed, with_part, NodeView,
};
use vstd::prelude::*;

verus! {

/// A tree has exactly one root, which has no parent. Every other node
/// has a parent, which stands before it and one level above it, so that
/// going from child to parent always ends at the root.
pub proof fn law_single_root(s: Seq<NodeView>, i: int)
    requires
        shaped(s),
        0 <= i < s.len(),
    ensures
        s[i].depth == 0 <==> i == 0,
        parent_index(s, 0) == -1,
        i > 0 ==> 0 <= parent_index(s, i) < i && s[parent_index(s, i)].depth + 1 == s[i].depth,
        i > 0 ==> is_ancestor(s, 0, i),
{
    if i > 0 {
        lemma_parent(s, i);
        assert(crate::tree_model::step_ok(s, i));
        crate::tree_model::lemma_root_subtree(s);
        lemma_subtree_is_descendants(s, 0, i);
    }
}

/// The nodes of a subtree that are one level below its root are the
/// nodes whose parent is that root: the children of a node are the nodes
/// that have it as their parent.
pub proof fn law_children_have_parent(s: Seq<NodeView>, i: int, k: int)
    requires
        shaped(s),
        0 <= i < k < s.len(),
        k < subtree_end(s, i),
    ensures
        s[k].depth == s[i].depth + 1 <==> parent_index(s, k) == i,
{
    lemma_child_has_parent(s, i, k);
}

/// A leaf that was inserted is found under its identifier, with the part
/// it was given, one level below the node it was inserted under, which is
/// its parent.
pub proof fn law_inserted_is_found(s: Seq<NodeView>, p: int, id: IdValue, part: PartView)
    requires
        well_formed(s),
        0 <= p < s.len(),
        !ids(s).contains(id),
    ensures
        position(inserted(s, p, id, part), id) is Some,
        inserted(s, p, id, part)[position(inserted(s, p, id, part), id)->Some_0] == (NodeView {
            id,
            depth: s[p].depth + 1,
            part,
        }),
        parent_index(
            inserted(s, p, id, part),
            position(inserted(s, p, id, part), id)->Some_0,
        ) == p,
        inserted(s, p, id, part)[p] == s[p],
{
    lemma_subtree_end(s, p);
    lemma_inserted(s, p, id, part);
    lemma_inserted_leaf(s, p, id, part);
}

/// A part specification that says nothing of the transform gives the
/// identity, one that says nothing of the joint gives a fixed joint, and
/// whatever it does say is taken as it is.
pub proof fn law_spec_defaults(spec: PartSpecView)
    ensures
        spec.parent_to_self is None ==> spec.resolved().parent_to_self
            == Transform::spec_identity(),
        spec.parent_to_self is Some ==> spec.resolved().parent_to_self
            == spec.parent_to_self->Some_0,
        spec.joint is None ==> spec.resolved().joint == Joint::Fix,
        spec.joint is Some ==> spec.resolved().joint == spec.joint->Some_0,
        spec.resolved().placed_mesh == spec.placed_mesh,
        spec.resolved().placed_collider == spec.placed_collider,
{
}

/// Inserting a leaf leaves every other node findable under its
/// identifier, unchanged.
pub proof fn law_insert_keeps_others(
    s: Seq<NodeView>,
    p: int,
    id: IdValue,
    part: PartView,
    k: int,
)
    requires
        well_formed(s),
        0 <= p < s.len(),
        !ids(s).contains(id),
        0 <= k < s.len(),
    ensures
        position(inserted(s, p, id, part), s[k].id) is Some,
        inserted(s, p, id, part)[position(inserted(s, p, id, part), s[k].id)->Some_0] == s[k],
{
    lemma_subtree_end(s, p);
    lemma_inserted(s, p, id, part);
    lemma_inserted_positions(s, p, id, part, k);
}

/// After the part of a node is replaced, the node is found under its
/// identifier with the new part, and every other node is found unchanged.
pub proof fn law_found_content_is_current(s: Seq<NodeView>, i: int, part: PartView, k: int)
    requires
        well_formed(s),
        0 <= i < s.len(),
        0 <= k < s.len(),
    ensures
        position(with_part(s, i, part), s[k].id) == Some(k),
        with_part(s, i, part)[i].part == part,
        k != i ==> with_part(s, i, part)[k] == s[k],
{
    lemma_with_part(s, i, part);
    lemma_position_of_node(s, k);
}

/// Removing a node removes its subtree and nothing else: the tree has as
/// many nodes fewer as the subtree had, the removed node and its
/// descendants are no longer found, and every other node is found
/// unchanged.
pub proof fn law_remove_deletes_subtree(s: Seq<NodeView>, i: int, k: int)
    requires
        well_formed(s),
        1 <= i < s.len(),
        0 <= k < s.len(),
    ensures
        well_formed(removed(s, i)),
        removed(s, i).len() == s.len() - subtree_len(s, i),
        1 <= subtree_len(s, i) < s.len(),
        k == i || is_ancestor(s, i, k) ==> position(removed(s, i), s[k].id) is None,
        !(k == i || is_ancestor(s, i, k)) ==> {
            &&& position(removed(s, i), s[k].id) is Some
            &&& removed(s, i)[position(removed(s, i), s[k].id)->Some_0] == s[k]
        },
{
    lemma_subtree_end(s, i);
    lemma_removed(s, i);
    lemma_removed_positions(s, i, k);
    lemma_subtree_is_descendants(s, i, k);
}

/// The tree after the joint of the node at `i` was cycled `n` times.
pub open spec fn joint_cycled_times(s: Seq<NodeView>, i: int, n: nat) -> Seq<NodeView>
    decreases n,
{
    if n == 0 {
        s
    } else {
        let t = joint_cycled_times(s, i, (n - 1) as nat);
        with_part(t, i, joint_cycled(t[i].part))
    }
}

/// Cycling the joint of a node `n` times moves the joint `n` kinds on and
/// changes nothing else.
pub proof fn lemma_joint_cycled_times(s: Seq<NodeView>, i: int, n: nat)
    requires
        0 <= i < s.len(),
    ensures
        joint_cycled_times(s, i, n) == with_part(
            s,
            i,
            PartView {
                parent_to_self: s[i].part.parent_to_self,
                joint: s[i].part.joint.advanced(n),
                placed_mesh: s[i].part.placed_mesh,
                placed_collider: s[i].part.placed_collider,
            },
        ),
    decreases n,
{
    if n == 0 {
        assert(s =~= with_part(s, i, s[i].part));
    } else {
        lemma_joint_cycled_times(s, i, (n - 1) as nat);
        lemma_advanced_last(s[i].part.joint, (n - 1) as nat);
        let t = joint_cycled_times(s, i, (n - 1) as nat);
        assert(with_part(t, i, joint_cycled(t[i].part)) =~= with_part(
            s,
            i,
            PartView {
                parent_to_self: s[i].part.parent_to_self,
                joint: s[i].part.joint.advanced(n),
                placed_mesh: s[i].part.placed_mesh,
                placed_collider: s[i].part.placed_collider,
            },
        ));
    }
}

/// Going `n` steps and then one is going `n + 1` steps.
proof fn lemma_advanced_last(j: Joint, n: nat)
    ensures
        j.advanced(n).spec_next() == j.advanced(n + 1),
    decreases n,
{
    assert(j.advanced(n + 1) == j.spec_next().advanced(n));
    if n > 0 {
        assert(j.advanced(n) == j.spec_next().advanced((n - 1) as nat));
        lemma_advanced_last(j.spec_next(), (n - 1) as nat);
    } else {
        assert(j.spec_next().advanced(0) == j.spec_next());
    }
}

/// Cycling the joint of a node as many times as there are joint kinds
/// gives back the tree one started from.
pub proof fn law_joint_cycle_returns(s: Seq<NodeView>, i: int)
    requires
        0 <= i < s.len(),
    ensures
        joint_cycled_times(s, i, JOINT_KINDS as nat) == s,
{
    lemma_joint_cycled_times(s, i, JOINT_KINDS as nat);
    s[i].part.joint.lemma_full_cycle();
    assert(s =~= with_part(s, i, s[i].part));
}

} // verus!
