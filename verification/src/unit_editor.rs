//! The unit editor: a bot definition that is being edited, the part that
//! is selected in it, and the commands that change them.
//!
//! Drawing the editor and reading the disk are done elsewhere. Every
//! command either takes place as a whole or fails and changes nothing.
//! The commands keep the selection on a part of the tree. The fields are
//! public, so a selection that names no part can be written in by hand;
//! no command assumes that it is not, and `select` and `remove` put it
//! right.

use crate::assets::{AssetCache, AssetStateView};
use crate::botdef::{BotDef, BotDefView};
use crate::error::CoreError;
use crate::file_tree::FileTree;
use crate::id::{allocate, IdValue, PartId};
use crate::part::{
    Joint, MeshView, PartSpec, PartView, PlacedMesh, Scalar, Transform, ONE_BITS,
};
use crate::part_tree::{joint_cycled, string_views, PartTree};
use crate::tree_edits::{
    lemma_inserted, lemma_inserted_positions, lemma_removed_adds_nothing,
    lemma_removed_positions, lemma_with_part,
};
use crate::tree_model::{
    ids, inserted, lemma_parent, lemma_position, lemma_position_of_node, lemma_root_subtree,
    mesh_paths, parent_index, position, removed, subtree_end, with_part, NodeView,
};
use vstd::prelude::*;

verus! {

/// The state of the unit editor.
#[derive(Debug, PartialEq, Eq)]
pub struct UnitEditor {
    /// The point that the camera orbits, as three bit patterns.
    pub orbit: [u32; 3],
    /// The definition that is being edited.
    pub botdef: BotDef,
    /// The last snapshot of the asset directory.
    pub asset_dir_cached: FileTree,
    /// The part that is selected.
    pub selected_id: PartId,
}

/// The tuning of the definition that a new editor starts with. The part
/// tree is left empty here.
pub open spec fn initial_tuning() -> BotDefView {
    BotDefView {
        id: 0,
        radius: Scalar { bits: 0x3F00_0000 },
        max_life: 100,
        turn_accel: Scalar { bits: 0x3FC0_0000 },
        max_turn_rate: Scalar { bits: 0x3FC0_0000 },
        accel: Scalar { bits: 0x3DCC_CCCD },
        break_accel: Scalar { bits: 0x3E99_999A },
        max_speed: Scalar { bits: ONE_BITS },
        part_tree: Seq::empty(),
    }
}

/// The part that a new editor puts at the root: fixed, in place, bare.
pub open spec fn bare_part() -> PartView {
    PartView {
        parent_to_self: Transform::spec_identity(),
        joint: Joint::Fix,
        placed_mesh: None,
        placed_collider: None,
    }
}

/// The part that carries the given mesh and is otherwise bare.
pub open spec fn mesh_part(trans: Transform, mesh_path: Seq<char>) -> PartView {
    PartView { placed_mesh: Some(MeshView { trans, mesh_path }), ..bare_part() }
}

/// The part with its mesh replaced by the one at `mesh_path`. The new
/// mesh sits where the old one sat, or in place if there was none.
pub open spec fn mesh_replaced(part: PartView, mesh_path: Seq<char>) -> PartView {
    PartView {
        placed_mesh: Some(
            MeshView {
                trans: match part.placed_mesh {
                    Some(m) => m.trans,
                    None => Transform::spec_identity(),
                },
                mesh_path,
            },
        ),
        ..part
    }
}

/// The selection stays where it is when the subtree of the node at `i`
/// is removed: it names a part, and that part is not in the subtree.
pub open spec fn selection_stays(s: Seq<NodeView>, selected: IdValue, i: int) -> bool {
    match position(s, selected) {
        Some(k) => !(i <= k < subtree_end(s, i)),
        None => false,
    }
}

/// The part moved to `parent_to_self`.
pub open spec fn part_moved(part: PartView, parent_to_self: Transform) -> PartView {
    PartView { parent_to_self, ..part }
}

/// The part with its mesh, if it has one, moved to `trans`.
pub open spec fn mesh_moved(part: PartView, trans: Transform) -> PartView {
    PartView {
        placed_mesh: match part.placed_mesh {
            Some(m) => Some(MeshView { trans, mesh_path: m.mesh_path }),
            None => None,
        },
        ..part
    }
}

impl UnitEditor {
    /// The part tree is a tree, and the selection names one of its parts.
    pub open spec fn wf(&self) -> bool {
        &&& self.botdef.wf()
        &&& position(self.botdef.part_tree@, self.selected_id@) is Some
    }

    /// Whether the part tree is a tree and the selection names one of its
    /// parts. Both hold of every editor that is changed through the
    /// functions of this module only, and not by writing to its fields.
    pub fn is_well_formed(&self) -> (ok: bool)
        ensures
            ok == self.wf(),
    {
        self.botdef.part_tree.is_well_formed() && self.botdef.part_tree.contains(self.selected_id)
    }

    /// The editor as it starts: a definition with the initial tuning
    /// whose tree is a bare root with one child, which carries the cube
    /// mesh placed by `cube_trans`; the root is selected, and no snapshot
    /// of the asset directory was taken.
    pub fn new(cube_trans: Transform) -> (editor: UnitEditor)
        ensures
            editor.wf(),
            editor.orbit@ == seq![0x4396_0000u32, 0x42C8_0000u32, 0x3F00_0000u32],
            editor.asset_dir_cached is Unknown,
            editor.botdef@ == (BotDefView {
                id: editor.botdef@.id,
                part_tree: editor.botdef@.part_tree,
                ..initial_tuning()
            }),
            editor.botdef.part_tree@.len() == 2,
            editor.botdef.part_tree@[0].depth == 0,
            editor.botdef.part_tree@[0].part == bare_part(),
            editor.botdef.part_tree@[1].depth == 1,
            editor.botdef.part_tree@[1].part == mesh_part(cube_trans, "./src/asset/cube.obj"@),
            editor.selected_id@ == editor.botdef.part_tree@[0].id,
    {
        let mut part_tree = PartTree::new(PartSpec::new());
        let root_id: PartId = part_tree.root_id();
        let ghost s = part_tree@;
        let spec = PartSpec::with_mesh("./src/asset/cube.obj".to_owned(), cube_trans);
        proof {
            lemma_position_of_node(s, 0);
            lemma_root_subtree(s);
        }
        let child = part_tree.insert_child(root_id, spec);
        proof {
            lemma_inserted(s, 0, child->Ok_0@, spec@.resolved());
            lemma_inserted_positions(s, 0, child->Ok_0@, spec@.resolved(), 0);
        }
        let botdef = BotDef {
            id: allocate(),
            radius: Scalar { bits: 0x3F00_0000 },
            max_life: 100,
            turn_accel: Scalar { bits: 0x3FC0_0000 },
            max_turn_rate: Scalar { bits: 0x3FC0_0000 },
            accel: Scalar { bits: 0x3DCC_CCCD },
            break_accel: Scalar { bits: 0x3E99_999A },
            max_speed: Scalar { bits: ONE_BITS },
            part_tree,
        };
        let orbit: [u32; 3] = [0x4396_0000, 0x42C8_0000, 0x3F00_0000];
        assert(orbit@ =~= seq![0x4396_0000u32, 0x42C8_0000u32, 0x3F00_0000u32]);
        UnitEditor { orbit, botdef, asset_dir_cached: FileTree::Unknown, selected_id: root_id }
    }

    /// Records how a load of the mesh at `path` went, and returns whether
    /// it worked.
    pub fn open_obj(cache: &mut AssetCache, path: String, outcome: Result<(), String>) -> (loaded:
        bool)
        requires
            old(cache).wf(),
        ensures
            final(cache).wf(),
            loaded == outcome is Ok,
            final(cache)@ == old(cache)@.insert(
                path@,
                match outcome {
                    Ok(_) => AssetStateView::Loading,
                    Err(reason) => AssetStateView::Error(reason@),
                },
            ),
    {
        cache.record_load(path, outcome)
    }

    /// Takes `snapshot` as the snapshot of the asset directory.
    pub fn set_asset_dir(&mut self, snapshot: FileTree)
        ensures
            final(self).asset_dir_cached == snapshot,
            final(self).botdef == old(self).botdef,
            final(self).selected_id == old(self).selected_id,
            final(self).orbit == old(self).orbit,
    {
        self.asset_dir_cached = snapshot;
    }

    /// Discards the snapshot of the asset directory, so that a new one
    /// is taken before the directory is shown again.
    pub fn invalidate_asset_dir(&mut self)
        ensures
            final(self).asset_dir_cached is Unknown,
            final(self).botdef == old(self).botdef,
            final(self).selected_id == old(self).selected_id,
            final(self).orbit == old(self).orbit,
    {
        self.asset_dir_cached = FileTree::Unknown;
    }

    /// Selects the part with the given identifier. Fails, and changes
    /// nothing, if there is no such part.
    pub fn select(&mut self, id: PartId) -> (done: Result<(), CoreError>)
        requires
            old(self).botdef.wf(),
        ensures
            final(self).botdef.wf(),
            old(self).wf() ==> final(self).wf(),
            done is Ok ==> final(self).wf(),
            final(self).botdef == old(self).botdef,
            final(self).orbit == old(self).orbit,
            final(self).asset_dir_cached == old(self).asset_dir_cached,
            match position(old(self).botdef.part_tree@, id@) {
                Some(_) => done is Ok && final(self).selected_id@ == id@,
                None => done == Err::<(), CoreError>(CoreError::NodeNotFound)
                    && final(self).selected_id == old(self).selected_id,
            },
    {
        if self.botdef.part_tree.contains(id) {
            self.selected_id = id;
            Ok(())
        } else {
            Err(CoreError::NodeNotFound)
        }
    }

    /// Adds a part that carries the mesh at `mesh_path`, placed by
    /// `trans`, as the last child of the part with identifier
    /// `parent_id`, and returns the identifier of the new part. The
    /// selection stays. Fails, and changes nothing, if there is no such
    /// parent.
    pub fn add_child(&mut self, parent_id: PartId, mesh_path: String, trans: Transform) -> (new_id:
        Result<PartId, CoreError>)
        requires
            old(self).botdef.wf(),
        ensures
            final(self).botdef.wf(),
            old(self).wf() ==> final(self).wf(),
            final(self).selected_id == old(self).selected_id,
            final(self).orbit == old(self).orbit,
            final(self).asset_dir_cached == old(self).asset_dir_cached,
            match position(old(self).botdef.part_tree@, parent_id@) {
                Some(p) => {
                    &&& new_id is Ok
                    &&& !ids(old(self).botdef.part_tree@).contains(new_id->Ok_0@)
                    &&& final(self).botdef@ == (BotDefView {
                        part_tree: inserted(
                            old(self).botdef.part_tree@,
                            p,
                            new_id->Ok_0@,
                            mesh_part(trans, mesh_path@),
                        ),
                        ..old(self).botdef@
                    })
                },
                None => {
                    &&& new_id == Err::<PartId, CoreError>(CoreError::NodeNotFound)
                    &&& final(self).botdef@ == old(self).botdef@
                },
            },
    {
        let ghost s = self.botdef.part_tree@;
        let spec = PartSpec::with_mesh(mesh_path, trans);
        let new_id = self.botdef.part_tree.insert_child(parent_id, spec);
        proof {
            if new_id is Ok && position(s, self.selected_id@) is Some {
                let p = position(s, parent_id@)->Some_0;
                lemma_position(s, parent_id@);
                lemma_position(s, self.selected_id@);
                lemma_inserted_positions(
                    s,
                    p,
                    new_id->Ok_0@,
                    spec@.resolved(),
                    position(s, self.selected_id@)->Some_0,
                );
            }
        }
        new_id
    }

    /// Adds a part that carries the mesh at `path`, placed by `trans`, as
    /// the last child of the selected part, and returns the identifier of
    /// the new part. Fails, and changes nothing, if the selection names
    /// no part of the tree.
    pub fn add_to_parts(&mut self, path: String, trans: Transform) -> (new_id: Result<
        PartId,
        CoreError,
    >)
        requires
            old(self).botdef.wf(),
        ensures
            final(self).botdef.wf(),
            old(self).wf() ==> final(self).wf(),
            final(self).selected_id == old(self).selected_id,
            final(self).orbit == old(self).orbit,
            final(self).asset_dir_cached == old(self).asset_dir_cached,
            match position(old(self).botdef.part_tree@, old(self).selected_id@) {
                Some(p) => {
                    &&& new_id is Ok
                    &&& !ids(old(self).botdef.part_tree@).contains(new_id->Ok_0@)
                    &&& final(self).botdef@ == (BotDefView {
                        part_tree: inserted(
                            old(self).botdef.part_tree@,
                            p,
                            new_id->Ok_0@,
                            mesh_part(trans, path@),
                        ),
                        ..old(self).botdef@
                    })
                },
                None => {
                    &&& new_id == Err::<PartId, CoreError>(CoreError::NodeNotFound)
                    &&& final(self).botdef@ == old(self).botdef@
                },
            },
    {
        let parent_id: PartId = self.selected_id;
        self.add_child(parent_id, path, trans)
    }

    /// Removes the part with the given identifier together with its whole
    /// subtree. If the selected part was among those removed, the parent
    /// of the removed part is selected: the nearest ancestor that
    /// remains. The same is done if the selection named no part. Fails,
    /// and changes nothing, if there is no such part or if it is the
    /// root.
    pub fn remove(&mut self, id: PartId) -> (done: Result<(), CoreError>)
        requires
            old(self).botdef.wf(),
        ensures
            final(self).botdef.wf(),
            old(self).wf() ==> final(self).wf(),
            done is Ok ==> final(self).wf(),
            final(self).orbit == old(self).orbit,
            final(self).asset_dir_cached == old(self).asset_dir_cached,
            match position(old(self).botdef.part_tree@, id@) {
                Some(i) => if i == 0 {
                    &&& done == Err::<(), CoreError>(CoreError::CannotRemoveRoot)
                    &&& final(self).botdef@ == old(self).botdef@
                    &&& final(self).selected_id == old(self).selected_id
                } else {
                    &&& done is Ok
                    &&& final(self).botdef@ == (BotDefView {
                        part_tree: removed(old(self).botdef.part_tree@, i),
                        ..old(self).botdef@
                    })
                    &&& final(self).selected_id@ == if selection_stays(
                        old(self).botdef.part_tree@,
                        old(self).selected_id@,
                        i,
                    ) {
                        old(self).selected_id@
                    } else {
                        old(self).botdef.part_tree@[parent_index(
                            old(self).botdef.part_tree@,
                            i,
                        )].id
                    }
                },
                None => {
                    &&& done == Err::<(), CoreError>(CoreError::NodeNotFound)
                    &&& final(self).botdef@ == old(self).botdef@
                    &&& final(self).selected_id == old(self).selected_id
                },
            },
    {
        let ghost s = self.botdef.part_tree@;
        proof {
            lemma_position(s, id@);
            lemma_position(s, self.selected_id@);
        }
        match self.botdef.part_tree.remove(id) {
            Ok(parent) => {
                proof {
                    let i = position(s, id@)->Some_0;
                    lemma_parent(s, i);
                    match position(s, self.selected_id@) {
                        Some(sel) => lemma_removed_positions(s, i, sel),
                        None => lemma_removed_adds_nothing(s, i, self.selected_id@),
                    }
                    lemma_removed_positions(s, i, parent_index(s, i));
                }
                if !self.botdef.part_tree.contains(self.selected_id) {
                    self.selected_id = parent;
                }
                Ok(())
            },
            Err(e) => Err(e),
        }
    }

    /// Changes the part with the given identifier as `change` says, which
    /// is one of the changes below.
    fn change_part(&mut self, id: PartId, change: PartChange) -> (done: Result<(), CoreError>)
        requires
            old(self).botdef.wf(),
        ensures
            final(self).botdef.wf(),
            old(self).wf() ==> final(self).wf(),
            final(self).selected_id == old(self).selected_id,
            final(self).orbit == old(self).orbit,
            final(self).asset_dir_cached == old(self).asset_dir_cached,
            match position(old(self).botdef.part_tree@, id@) {
                Some(i) => {
                    &&& done is Ok
                    &&& final(self).botdef@ == (BotDefView {
                        part_tree: with_part(
                            old(self).botdef.part_tree@,
                            i,
                            change@.applied(old(self).botdef.part_tree@[i].part),
                        ),
                        ..old(self).botdef@
                    })
                },
                None => {
                    &&& done == Err::<(), CoreError>(CoreError::NodeNotFound)
                    &&& final(self).botdef@ == old(self).botdef@
                },
            },
    {
        let ghost s = self.botdef.part_tree@;
        proof {
            lemma_position(s, id@);
            if position(s, id@) is Some && position(s, self.selected_id@) is Some {
                let i = position(s, id@)->Some_0;
                assert forall|part: PartView|
                    position(#[trigger] with_part(s, i, part), self.selected_id@) is Some by {
                    lemma_with_part(s, i, part);
                }
            }
        }
        match self.botdef.part_tree.find_mut(id) {
            Some(part) => {
                match change {
                    PartChange::CycleJoint => {
                        part.joint.replace_with_next();
                    },
                    PartChange::ReplaceMesh(mesh_path) => {
                        let trans: Transform = match &part.placed_mesh {
                            Some(old) => old.trans,
                            None => Transform::identity(),
                        };
                        part.placed_mesh = Some(PlacedMesh { trans, mesh_path });
                    },
                    PartChange::Move(parent_to_self) => {
                        part.parent_to_self = parent_to_self;
                    },
                    PartChange::MoveMesh(trans) => {
                        match &mut part.placed_mesh {
                            Some(mesh) => {
                                mesh.trans = trans;
                            },
                            None => {},
                        }
                    },
                }
                Ok(())
            },
            None => Err(CoreError::NodeNotFound),
        }
    }

    /// Puts the mesh at `mesh_path` on the part with the given
    /// identifier, in the place of the mesh it has: the new mesh sits
    /// where the old one sat, or in place if there was none. Fails, and
    /// changes nothing, if there is no such part.
    pub fn replace_mesh(&mut self, id: PartId, mesh_path: String) -> (done: Result<(), CoreError>)
        requires
            old(self).botdef.wf(),
        ensures
            final(self).botdef.wf(),
            old(self).wf() ==> final(self).wf(),
            final(self).selected_id == old(self).selected_id,
            final(self).orbit == old(self).orbit,
            final(self).asset_dir_cached == old(self).asset_dir_cached,
            match position(old(self).botdef.part_tree@, id@) {
                Some(i) => {
                    &&& done is Ok
                    &&& final(self).botdef@ == (BotDefView {
                        part_tree: with_part(
                            old(self).botdef.part_tree@,
                            i,
                            mesh_replaced(old(self).botdef.part_tree@[i].part, mesh_path@),
                        ),
                        ..old(self).botdef@
                    })
                },
                None => {
                    &&& done == Err::<(), CoreError>(CoreError::NodeNotFound)
                    &&& final(self).botdef@ == old(self).botdef@
                },
            },
    {
        self.change_part(id, PartChange::ReplaceMesh(mesh_path))
    }

    /// Moves the joint of the part with the given identifier to the next
    /// kind. Fails, and changes nothing, if there is no such part.
    pub fn cycle_joint(&mut self, id: PartId) -> (done: Result<(), CoreError>)
        requires
            old(self).botdef.wf(),
        ensures
            final(self).botdef.wf(),
            old(self).wf() ==> final(self).wf(),
            final(self).selected_id == old(self).selected_id,
            final(self).orbit == old(self).orbit,
            final(self).asset_dir_cached == old(self).asset_dir_cached,
            match position(old(self).botdef.part_tree@, id@) {
                Some(i) => {
                    &&& done is Ok
                    &&& final(self).botdef@ == (BotDefView {
                        part_tree: with_part(
                            old(self).botdef.part_tree@,
                            i,
                            joint_cycled(old(self).botdef.part_tree@[i].part),
                        ),
                        ..old(self).botdef@
                    })
                },
                None => {
                    &&& done == Err::<(), CoreError>(CoreError::NodeNotFound)
                    &&& final(self).botdef@ == old(self).botdef@
                },
            },
    {
        self.change_part(id, PartChange::CycleJoint)
    }

    /// Moves the part with the given identifier to `parent_to_self`,
    /// relative to its parent. Fails, and changes nothing, if there is no
    /// such part.
    pub fn set_transform(&mut self, id: PartId, parent_to_self: Transform) -> (done: Result<
        (),
        CoreError,
    >)
        requires
            old(self).botdef.wf(),
        ensures
            final(self).botdef.wf(),
            old(self).wf() ==> final(self).wf(),
            final(self).selected_id == old(self).selected_id,
            final(self).orbit == old(self).orbit,
            final(self).asset_dir_cached == old(self).asset_dir_cached,
            match position(old(self).botdef.part_tree@, id@) {
                Some(i) => {
                    &&& done is Ok
                    &&& final(self).botdef@ == (BotDefView {
                        part_tree: with_part(
                            old(self).botdef.part_tree@,
                            i,
                            part_moved(old(self).botdef.part_tree@[i].part, parent_to_self),
                        ),
                        ..old(self).botdef@
                    })
                },
                None => {
                    &&& done == Err::<(), CoreError>(CoreError::NodeNotFound)
                    &&& final(self).botdef@ == old(self).botdef@
                },
            },
    {
        self.change_part(id, PartChange::Move(parent_to_self))
    }

    /// Moves the mesh of the part with the given identifier to `trans`,
    /// relative to the part; a part without a mesh stays as it is. Fails,
    /// and changes nothing, if there is no such part.
    pub fn set_mesh_transform(&mut self, id: PartId, trans: Transform) -> (done: Result<
        (),
        CoreError,
    >)
        requires
            old(self).botdef.wf(),
        ensures
            final(self).botdef.wf(),
            old(self).wf() ==> final(self).wf(),
            final(self).selected_id == old(self).selected_id,
            final(self).orbit == old(self).orbit,
            final(self).asset_dir_cached == old(self).asset_dir_cached,
            match position(old(self).botdef.part_tree@, id@) {
                Some(i) => {
                    &&& done is Ok
                    &&& final(self).botdef@ == (BotDefView {
                        part_tree: with_part(
                            old(self).botdef.part_tree@,
                            i,
                            mesh_moved(old(self).botdef.part_tree@[i].part, trans),
                        ),
                        ..old(self).botdef@
                    })
                },
                None => {
                    &&& done == Err::<(), CoreError>(CoreError::NodeNotFound)
                    &&& final(self).botdef@ == old(self).botdef@
                },
            },
    {
        self.change_part(id, PartChange::MoveMesh(trans))
    }

    /// Takes `botdef` as the definition to edit, selects its root, and
    /// returns the paths of its meshes in depth-first pre-order, which
    /// are the assets to load for it.
    pub fn load(&mut self, botdef: BotDef) -> (paths: Vec<String>)
        requires
            botdef.wf(),
        ensures
            final(self).wf(),
            final(self).botdef == botdef,
            final(self).selected_id@ == botdef.part_tree@[0].id,
            final(self).orbit == old(self).orbit,
            final(self).asset_dir_cached == old(self).asset_dir_cached,
            string_views(paths@) == mesh_paths(botdef.part_tree@),
    {
        proof {
            lemma_position_of_node(botdef.part_tree@, 0);
        }
        let paths: Vec<String> = botdef.part_tree.mesh_paths();
        self.selected_id = botdef.part_tree.root_id();
        self.botdef = botdef;
        paths
    }
}

/// A change to one part.
pub enum PartChange {
    /// Move the joint to the next kind.
    CycleJoint,
    /// Put the mesh at the given path in the place of the mesh.
    ReplaceMesh(String),
    /// Move the part, relative to its parent.
    Move(Transform),
    /// Move the mesh, relative to the part.
    MoveMesh(Transform),
}

/// The mathematical content of a change to one part.
pub enum PartChangeView {
    CycleJoint,
    ReplaceMesh(Seq<char>),
    Move(Transform),
    MoveMesh(Transform),
}

impl View for PartChange {
    type V = PartChangeView;

    open spec fn view(&self) -> PartChangeView {
        match *self {
            PartChange::CycleJoint => PartChangeView::CycleJoint,
            PartChange::ReplaceMesh(path) => PartChangeView::ReplaceMesh(path@),
            PartChange::Move(t) => PartChangeView::Move(t),
            PartChange::MoveMesh(t) => PartChangeView::MoveMesh(t),
        }
    }
}

impl PartChangeView {
    /// The part after the change.
    pub open spec fn applied(self, part: PartView) -> PartView {
        match self {
            PartChangeView::CycleJoint => joint_cycled(part),
            PartChangeView::ReplaceMesh(path) => mesh_replaced(part, path),
            PartChangeView::Move(t) => part_moved(part, t),
            PartChangeView::MoveMesh(t) => mesh_moved(part, t),
        }
    }
}

} // verus!
