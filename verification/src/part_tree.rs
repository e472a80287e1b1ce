//! The part tree: the rigid parts of a bot, each tied to its parent by a
//! joint, addressed by identifier.
//!
//! The nodes are stored in depth-first pre-order, each with its depth, so
//! that searching in pre-order is a scan from the front and a subtree is a
//! contiguous run.

use crate::error::CoreError;
use crate::fresh::{
    first_free, is_first_free, lemma_first_free_is, lemma_probe_next, lemma_probes_bounded, probe,
};
use crate::id::{allocate, Id, IdValue, PartId};
use crate::part::{Part, PartSpec, PartView};
use crate::tree_edits::{lemma_inserted, lemma_removed, lemma_with_part};
use crate::tree_model::{
    children, children_before, end_from, ids, inserted, lemma_depth_bound, lemma_parent,
    lemma_position_contains, mesh_paths, mesh_paths_before, parent_index, position,
    position_from, removed, shallower_from, step_ok, subtree_end, well_formed, with_part,
    NodeView,
};
use vstd::prelude::*;

verus! {

/// One node of a part tree.
#[derive(Debug, PartialEq, Eq)]
pub struct PartNode {
    id: PartId,
    depth: usize,
    part: Part,
}

impl View for PartNode {
    type V = NodeView;

    closed spec fn view(&self) -> NodeView {
        NodeView { id: self.id@, depth: self.depth as nat, part: self.part@ }
    }
}

impl PartNode {
    /// A node with the given identifier, depth and part.
    pub fn new(id: PartId, depth: usize, part: Part) -> (node: PartNode)
        ensures
            node@ == (NodeView { id: id@, depth: depth as nat, part: part@ }),
    {
        PartNode { id, depth, part }
    }

    /// The identifier of this node.
    pub fn id(&self) -> (id: PartId)
        ensures
            id@ == self@.id,
    {
        self.id
    }

    /// How many levels below the root this node stands.
    pub fn depth(&self) -> (depth: usize)
        ensures
            depth == self@.depth,
    {
        self.depth
    }

    /// The part that this node carries.
    pub fn part(&self) -> (part: &Part)
        ensures
            part@ == self@.part,
    {
        &self.part
    }
}

/// A tree of parts.
#[derive(Debug, PartialEq, Eq)]
pub struct PartTree {
    nodes: Vec<PartNode>,
}

impl View for PartTree {
    type V = Seq<NodeView>;

    closed spec fn view(&self) -> Seq<NodeView> {
        views(self.nodes@)
    }
}

/// The values of a run of identifiers.
pub open spec fn id_values(ids: Seq<PartId>) -> Seq<IdValue> {
    ids.map_values(|id: PartId| id@)
}

/// The contents of a run of strings.
pub open spec fn string_views(strings: Seq<String>) -> Seq<Seq<char>> {
    strings.map_values(|s: String| s@)
}

/// The model of a run of nodes.
pub open spec fn views(nodes: Seq<PartNode>) -> Seq<NodeView> {
    nodes.map_values(|n: PartNode| n@)
}

impl PartTree {
    /// The tree is a tree: one root, every other node at most one level
    /// below the node before it, no identifier twice.
    pub open spec fn wf(&self) -> bool {
        well_formed(self@)
    }

    /// The tree that consists of a root with the given identifier and
    /// part.
    pub fn with_root(id: PartId, part: Part) -> (tree: PartTree)
        ensures
            tree.wf(),
            tree@ == seq![NodeView { id: id@, depth: 0, part: part@ }],
    {
        let mut nodes: Vec<PartNode> = Vec::new();
        nodes.push(PartNode { id, depth: 0, part });
        let tree = PartTree { nodes };
        proof {
            assert(tree@ =~= seq![NodeView { id: id@, depth: 0, part: part@ }]);
            assert(ids(tree@) =~= seq![id@]);
        }
        tree
    }

    /// Whether the given nodes, taken as a depth-first pre-order listing
    /// with depths, are the nodes of a tree.
    fn check_nodes(nodes: &Vec<PartNode>) -> (ok: bool)
        ensures
            ok == well_formed(views(nodes@)),
    {
        let ghost s = views(nodes@);
        let len: usize = nodes.len();
        if len == 0 {
            return false;
        }
        if nodes[0].depth != 0 {
            return false;
        }
        let mut i: usize = 1;
        while i < len
            invariant
                1 <= i <= len,
                len == nodes@.len(),
                s == views(nodes@),
                forall|k: int| 1 <= k < i ==> #[trigger] step_ok(s, k),
                forall|a: int, b: int| 0 <= a < b < i ==> ids(s)[a] != ids(s)[b],
            decreases len - i,
        {
            let depth: usize = nodes[i].depth;
            if depth == 0 || depth - 1 > nodes[i - 1].depth {
                assert(!step_ok(s, i as int));
                return false;
            }
            let id: IdValue = nodes[i].id.value();
            let mut j: usize = 0;
            while j < i
                invariant
                    j <= i < len,
                    len == nodes@.len(),
                    s == views(nodes@),
                    id == ids(s)[i as int],
                    forall|a: int| 0 <= a < j ==> ids(s)[a] != id,
                decreases i - j,
            {
                if nodes[j].id.value() == id {
                    assert(ids(s)[j as int] == ids(s)[i as int]);
                    return false;
                }
                j += 1;
            }
            assert(step_ok(s, i as int));
            i += 1;
        }
        true
    }

    /// The tree whose nodes in depth-first pre-order, with their depths,
    /// are the given ones. Fails if they are not the nodes of a tree: if
    /// there is none, if the first is not at depth 0, if another is at
    /// depth 0 or more than one level below the node before it, or if two
    /// have the same identifier.
    pub fn from_preorder(nodes: Vec<PartNode>) -> (tree: Result<PartTree, CoreError>)
        ensures
            match tree {
                Ok(t) => well_formed(views(nodes@)) && t@ == views(nodes@) && t.wf(),
                Err(e) => !well_formed(views(nodes@)) && e == CoreError::CorruptData,
            },
    {
        if Self::check_nodes(&nodes) {
            Ok(PartTree { nodes })
        } else {
            Err(CoreError::CorruptData)
        }
    }

    /// Whether the tree is a tree. Every tree that the functions of this
    /// module hand out is one.
    pub fn is_well_formed(&self) -> (ok: bool)
        ensures
            ok == self.wf(),
    {
        Self::check_nodes(&self.nodes)
    }

    /// The number of nodes.
    pub fn len(&self) -> (len: usize)
        ensures
            len == self@.len(),
    {
        self.nodes.len()
    }

    /// The identifier of the root.
    pub fn root_id(&self) -> (id: PartId)
        requires
            self.wf(),
        ensures
            id@ == self@[0].id,
    {
        self.nodes[0].id
    }

    /// The nodes in depth-first pre-order; siblings stand in the order in
    /// which they were inserted.
    pub fn iter(&self) -> (nodes: &[PartNode])
        ensures
            views(nodes@) == self@,
    {
        self.nodes.as_slice()
    }

    /// The index of the first node in pre-order with the given identifier.
    fn index_of(&self, id: IdValue) -> (index: Option<usize>)
        ensures
            match index {
                Some(i) => position(self@, id) == Some(i as int) && i < self@.len(),
                None => position(self@, id) is None,
            },
    {
        let mut i: usize = 0;
        while i < self.nodes.len()
            invariant
                i <= self.nodes.len(),
                position(self@, id) == position_from(self@, id, i as int),
            decreases self.nodes.len() - i,
        {
            if self.nodes[i].id.value() == id {
                return Some(i);
            }
            i += 1;
        }
        None
    }

    /// Whether some node has the given identifier.
    pub fn contains(&self, id: PartId) -> (found: bool)
        ensures
            found == ids(self@).contains(id@),
            found == position(self@, id@) is Some,
    {
        proof {
            lemma_position_contains(self@, id@);
        }
        self.index_of(id.value()).is_some()
    }

    /// The first node in depth-first pre-order with the given identifier.
    pub fn find(&self, id: PartId) -> (found: Option<&PartNode>)
        ensures
            match position(self@, id@) {
                Some(i) => found is Some && found->Some_0@ == self@[i],
                None => found is None,
            },
    {
        match self.index_of(id.value()) {
            Some(i) => Some(&self.nodes[i]),
            None => None,
        }
    }

    /// The part of the first node in depth-first pre-order with the given
    /// identifier, for the caller to change. Whatever the caller writes,
    /// the node keeps its identifier and its place.
    pub fn find_mut(&mut self, id: PartId) -> (found: Option<&mut Part>)
        requires
            old(self).wf(),
        ensures
            match found {
                Some(part) => {
                    &&& position(old(self)@, id@) is Some
                    &&& part@ == old(self)@[position(old(self)@, id@)->Some_0].part
                    &&& final(self)@ == with_part(
                        old(self)@,
                        position(old(self)@, id@)->Some_0,
                        final(part)@,
                    )
                },
                None => position(old(self)@, id@) is None && final(self)@ == old(self)@,
            },
            final(self).wf(),
    {
        match self.index_of(id.value()) {
            Some(i) => {
                proof {
                    let nodes = self.nodes@;
                    assert forall|n: PartNode|
                        n.id == nodes[i as int].id && n.depth == nodes[i as int].depth implies {
                        &&& views(#[trigger] nodes.update(i as int, n)) == with_part(
                            views(nodes),
                            i as int,
                            n.part@,
                        )
                        &&& well_formed(views(nodes.update(i as int, n)))
                    } by {
                        assert(views(nodes.update(i as int, n)) =~= with_part(
                            views(nodes),
                            i as int,
                            n.part@,
                        ));
                        lemma_with_part(views(nodes), i as int, n.part@);
                    }
                }
                Some(&mut self.nodes[i].part)
            },
            None => None,
        }
    }

    /// The tree that consists of a root alone, described by `spec`, with
    /// an identifier drawn at random.
    pub fn new(spec: PartSpec) -> (tree: PartTree)
        ensures
            tree.wf(),
            tree@.len() == 1,
            tree@[0].depth == 0,
            tree@[0].part == spec@.resolved(),
    {
        PartTree::with_root(allocate(), spec.into_part())
    }

    /// The index just past the subtree of the node at `i`.
    fn subtree_end_at(&self, i: usize) -> (end: usize)
        requires
            i < self@.len(),
        ensures
            end == subtree_end(self@, i as int),
            i < end <= self@.len(),
    {
        let len: usize = self.nodes.len();
        assert(i < len);
        let depth: usize = self.nodes[i].depth;
        let mut end: usize = i + 1;
        while end < self.nodes.len() && self.nodes[end].depth > depth
            invariant
                i < end <= self.nodes.len(),
                depth == self@[i as int].depth,
                end_from(self@, depth as nat, end as int) == subtree_end(self@, i as int),
            decreases self.nodes.len() - end,
        {
            end += 1;
        }
        end
    }

    /// The index of the parent of the node at `i`.
    fn parent_at(&self, i: usize) -> (parent: usize)
        requires
            self.wf(),
            1 <= i < self@.len(),
        ensures
            parent == parent_index(self@, i as int),
            parent < i,
    {
        proof {
            lemma_parent(self@, i as int);
        }
        let depth: usize = self.nodes[i].depth;
        let mut parent: usize = i - 1;
        while self.nodes[parent].depth >= depth
            invariant
                parent < i < self.nodes.len(),
                depth == self@[i as int].depth,
                parent_index(self@, i as int) >= 0,
                shallower_from(self@, depth as nat, parent as int) == parent_index(
                    self@,
                    i as int,
                ),
            decreases parent,
        {
            assert(self@[parent as int].depth >= depth);
            assert(shallower_from(self@, depth as nat, parent as int) == shallower_from(
                self@,
                depth as nat,
                parent - 1,
            ));
            parent -= 1;
        }
        parent
    }

    /// The number of nodes in the subtree of the node with the given
    /// identifier, that node included.
    pub fn subtree_size(&self, id: PartId) -> (size: Result<usize, CoreError>)
        ensures
            match position(self@, id@) {
                Some(i) => size == Ok::<usize, CoreError>(
                    (subtree_end(self@, i) - i) as usize,
                ) && 1 <= subtree_end(self@, i) - i <= self@.len(),
                None => size == Err::<usize, CoreError>(CoreError::NodeNotFound),
            },
    {
        match self.index_of(id.value()) {
            Some(i) => {
                let end: usize = self.subtree_end_at(i);
                Ok(end - i)
            },
            None => Err(CoreError::NodeNotFound),
        }
    }

    /// The identifier of the parent of the node with the given
    /// identifier; `None` for the root.
    pub fn parent(&self, id: PartId) -> (parent: Result<Option<PartId>, CoreError>)
        requires
            self.wf(),
        ensures
            match position(self@, id@) {
                Some(i) => if i == 0 {
                    parent == Ok::<Option<PartId>, CoreError>(None)
                } else {
                    &&& parent is Ok
                    &&& parent->Ok_0 is Some
                    &&& parent->Ok_0->Some_0@ == self@[parent_index(self@, i)].id
                },
                None => parent == Err::<Option<PartId>, CoreError>(CoreError::NodeNotFound),
            },
    {
        match self.index_of(id.value()) {
            Some(i) => {
                if i == 0 {
                    Ok(None)
                } else {
                    let p: usize = self.parent_at(i);
                    Ok(Some(self.nodes[p].id))
                }
            },
            None => Err(CoreError::NodeNotFound),
        }
    }

    /// Inserts a new leaf, described by `spec`, as the last child of the
    /// node with identifier `parent_id`. The identifier of the leaf is the
    /// first value, in cyclic order from `candidate`, that the tree does
    /// not use yet. Fails, and changes nothing, if there is no such
    /// parent.
    pub fn insert_child_with_id(
        &mut self,
        parent_id: PartId,
        spec: PartSpec,
        candidate: PartId,
    ) -> (new_id: Result<PartId, CoreError>)
        requires
            old(self).wf(),
        ensures
            final(self).wf(),
            match position(old(self)@, parent_id@) {
                Some(p) => {
                    &&& new_id is Ok
                    &&& new_id->Ok_0@ == first_free(ids(old(self)@), candidate@)
                    &&& !ids(old(self)@).contains(new_id->Ok_0@)
                    &&& final(self)@ == inserted(
                        old(self)@,
                        p,
                        new_id->Ok_0@,
                        spec@.resolved(),
                    )
                },
                None => {
                    &&& new_id == Err::<PartId, CoreError>(CoreError::NodeNotFound)
                    &&& final(self)@ == old(self)@
                },
            },
    {
        let p: usize = match self.index_of(parent_id.value()) {
            Some(p) => p,
            None => {
                return Err(CoreError::NodeNotFound);
            },
        };
        let len: usize = self.nodes.len();
        let ghost taken = ids(self@);
        let ghost start = candidate@;
        let mut value: IdValue = candidate.value();
        let ghost mut k: nat = 0;
        proof {
            lemma_probe_next(start, 0);
        }
        loop
            invariant
                *self == *old(self),
                taken == ids(self@),
                taken.len() == len,
                value == probe(start, k),
                k <= taken.len(),
                forall|j: nat| j < k ==> taken.contains(#[trigger] probe(start, j)),
            ensures
                is_first_free(taken, start, k),
                value == probe(start, k),
            decreases taken.len() - k,
        {
            proof {
                lemma_position_contains(self@, value);
            }
            if self.index_of(value).is_none() {
                break ;
            }
            proof {
                assert forall|j: nat| j < k + 1 implies taken.contains(
                    #[trigger] probe(start, j),
                ) by {
                    if j < k {
                    }
                }
                lemma_probes_bounded(taken, start, k + 1);
                lemma_probe_next(start, k);
                k = k + 1;
            }
            value = if value == u64::MAX {
                0
            } else {
                value + 1
            };
        }
        proof {
            lemma_first_free_is(taken, start, k);
            lemma_depth_bound(self@, p as int);
            lemma_inserted(self@, p as int, value, spec@.resolved());
        }
        let end: usize = self.subtree_end_at(p);
        let depth: usize = self.nodes[p].depth + 1;
        let node = PartNode { id: Id::from_value(value), depth, part: spec.into_part() };
        self.nodes.insert(end, node);
        proof {
            assert(self@ =~= inserted(old(self)@, p as int, value, spec@.resolved()));
        }
        Ok(Id::from_value(value))
    }

    /// Inserts a new leaf, described by `spec`, as the last child of the
    /// node with identifier `parent_id`, and returns the identifier that
    /// was allocated for it, which the tree did not use before. Fails,
    /// and changes nothing, if there is no such parent.
    pub fn insert_child(&mut self, parent_id: PartId, spec: PartSpec) -> (new_id: Result<
        PartId,
        CoreError,
    >)
        requires
            old(self).wf(),
        ensures
            final(self).wf(),
            match position(old(self)@, parent_id@) {
                Some(p) => {
                    &&& new_id is Ok
                    &&& !ids(old(self)@).contains(new_id->Ok_0@)
                    &&& final(self)@ == inserted(
                        old(self)@,
                        p,
                        new_id->Ok_0@,
                        spec@.resolved(),
                    )
                },
                None => {
                    &&& new_id == Err::<PartId, CoreError>(CoreError::NodeNotFound)
                    &&& final(self)@ == old(self)@
                },
            },
    {
        let candidate: PartId = allocate();
        self.insert_child_with_id(parent_id, spec, candidate)
    }

    /// Removes the node with the given identifier together with its whole
    /// subtree, and returns the identifier of its parent: the nearest
    /// ancestor that remains, which is what a caller should select next if
    /// the removed node was selected. Fails, and changes nothing, if there
    /// is no such node or if it is the root.
    pub fn remove(&mut self, id: PartId) -> (reselect: Result<PartId, CoreError>)
        requires
            old(self).wf(),
        ensures
            final(self).wf(),
            match position(old(self)@, id@) {
                Some(i) => if i == 0 {
                    &&& reselect == Err::<PartId, CoreError>(CoreError::CannotRemoveRoot)
                    &&& final(self)@ == old(self)@
                } else {
                    &&& reselect is Ok
                    &&& reselect->Ok_0@ == old(self)@[parent_index(old(self)@, i)].id
                    &&& final(self)@ == removed(old(self)@, i)
                },
                None => {
                    &&& reselect == Err::<PartId, CoreError>(CoreError::NodeNotFound)
                    &&& final(self)@ == old(self)@
                },
            },
    {
        let i: usize = match self.index_of(id.value()) {
            Some(i) => i,
            None => {
                return Err(CoreError::NodeNotFound);
            },
        };
        if i == 0 {
            return Err(CoreError::CannotRemoveRoot);
        }
        let parent: usize = self.parent_at(i);
        let reselect: PartId = self.nodes[parent].id;
        let end: usize = self.subtree_end_at(i);
        proof {
            lemma_removed(self@, i as int);
        }
        let mut rest: Vec<PartNode> = self.nodes.split_off(end);
        self.nodes.truncate(i);
        self.nodes.append(&mut rest);
        proof {
            assert(self@ =~= removed(old(self)@, i as int));
        }
        Ok(reselect)
    }

    /// The identifiers of the children of the node with the given
    /// identifier, in the order in which they were inserted.
    pub fn children(&self, id: PartId) -> (found: Result<Vec<PartId>, CoreError>)
        ensures
            match position(self@, id@) {
                Some(i) => found is Ok && id_values(found->Ok_0@) == children(self@, i),
                None => found == Err::<Vec<PartId>, CoreError>(CoreError::NodeNotFound),
            },
    {
        let i: usize = match self.index_of(id.value()) {
            Some(i) => i,
            None => {
                return Err(CoreError::NodeNotFound);
            },
        };
        let end: usize = self.subtree_end_at(i);
        let depth: usize = self.nodes[i].depth;
        let mut found: Vec<PartId> = Vec::new();
        let mut k: usize = i + 1;
        assert(id_values(found@) =~= children_before(self@, i as int, k as int));
        while k < end
            invariant
                i < k <= end <= self.nodes@.len(),
                depth == self@[i as int].depth,
                id_values(found@) == children_before(self@, i as int, k as int),
            decreases end - k,
        {
            if self.nodes[k].depth > depth && self.nodes[k].depth - 1 == depth {
                found.push(self.nodes[k].id);
            }
            assert(id_values(found@) =~= children_before(self@, i as int, k + 1));
            k += 1;
        }
        Ok(found)
    }

    /// The paths of the meshes of the tree, in depth-first pre-order.
    pub fn mesh_paths(&self) -> (paths: Vec<String>)
        ensures
            string_views(paths@) == mesh_paths(self@),
    {
        let mut paths: Vec<String> = Vec::new();
        let mut k: usize = 0;
        assert(string_views(paths@) =~= mesh_paths_before(self@, 0));
        while k < self.nodes.len()
            invariant
                k <= self.nodes@.len(),
                string_views(paths@) == mesh_paths_before(self@, k as int),
            decreases self.nodes@.len() - k,
        {
            match &self.nodes[k].part.placed_mesh {
                Some(mesh) => {
                    paths.push(mesh.mesh_path.clone());
                },
                None => {},
            }
            assert(string_views(paths@) =~= mesh_paths_before(self@, k + 1));
            k += 1;
        }
        paths
    }

    /// Moves the joint of the node with the given identifier to the next
    /// kind in the cyclic order of kinds, and leaves everything else as it
    /// was. Fails, and changes nothing, if there is no such node.
    pub fn cycle_joint(&mut self, id: PartId) -> (done: Result<(), CoreError>)
        requires
            old(self).wf(),
        ensures
            final(self).wf(),
            match position(old(self)@, id@) {
                Some(i) => {
                    &&& done is Ok
                    &&& final(self)@ == with_part(
                        old(self)@,
                        i,
                        joint_cycled(old(self)@[i].part),
                    )
                },
                None => {
                    &&& done == Err::<(), CoreError>(CoreError::NodeNotFound)
                    &&& final(self)@ == old(self)@
                },
            },
    {
        match self.find_mut(id) {
            Some(part) => {
                part.joint.replace_with_next();
                Ok(())
            },
            None => Err(CoreError::NodeNotFound),
        }
    }
}

impl Clone for PartNode {
    fn clone(&self) -> (node: Self)
        ensures
            node@ == self@,
    {
        PartNode { id: self.id, depth: self.depth, part: self.part.clone() }
    }
}

impl Clone for PartTree {
    fn clone(&self) -> (tree: Self)
        ensures
            tree@ == self@,
    {
        let mut nodes: Vec<PartNode> = Vec::new();
        let mut i: usize = 0;
        while i < self.nodes.len()
            invariant
                i <= self.nodes@.len(),
                views(nodes@) == self@.subrange(0, i as int),
            decreases self.nodes@.len() - i,
        {
            let node = self.nodes[i].clone();
            let ghost before = views(nodes@);
            nodes.push(node);
            assert(views(nodes@) =~= before.push(node@));
            assert(node@ == self@[i as int]);
            assert(views(nodes@) =~= self@.subrange(0, i + 1));
            i += 1;
        }
        assert(self@.subrange(0, i as int) =~= self@);
        PartTree { nodes }
    }
}

/// The part with its joint moved to the next kind.
pub open spec fn joint_cycled(part: PartView) -> PartView {
    PartView {
        parent_to_self: part.parent_to_self,
        joint: part.joint.spec_next(),
        placed_mesh: part.placed_mesh,
        placed_collider: part.placed_collider,
    }
}

} // verus!
