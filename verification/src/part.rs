//! What one rigid part of a bot is made of: its transform relative to its
//! parent, the joint that ties it to the parent, and the mesh and collider
//! placed on it.
//!
//! Real numbers are single-precision IEEE-754 values held as their bit
//! patterns, so that a part is plain data that can be compared and stored
//! exactly.

use vstd::prelude::*;

verus! {

/// The bit pattern of the number one.
pub const ONE_BITS: u32 = 0x3F80_0000;

/// The number of joint kinds.
pub const JOINT_KINDS: u8 = 3;

/// A single-precision number, held as its bit pattern.
#[derive(Clone, Copy, Debug, PartialEq, Eq, Structural)]
pub struct Scalar {
    pub bits: u32,
}

/// A 4×4 homogeneous matrix in column-major order, each cell a bit pattern.
#[derive(Clone, Copy, Debug, PartialEq, Eq)]
pub struct Transform {
    pub cells: [u32; 16],
}

impl Transform {
    /// The identity matrix: one on the diagonal, zero elsewhere.
    pub open spec fn spec_identity() -> Transform {
        Transform {
            cells: [
                ONE_BITS, 0, 0, 0,
                0, ONE_BITS, 0, 0,
                0, 0, ONE_BITS, 0,
                0, 0, 0, ONE_BITS,
            ],
        }
    }

    /// The identity matrix.
    pub fn identity() -> (t: Transform)
        ensures
            t == Self::spec_identity(),
    {
        Transform {
            cells: [
                ONE_BITS, 0, 0, 0,
                0, ONE_BITS, 0, 0,
                0, 0, ONE_BITS, 0,
                0, 0, 0, ONE_BITS,
            ],
        }
    }

    /// The cell in row `row` and column `col`.
    pub fn cell(&self, row: usize, col: usize) -> (bits: u32)
        requires
            row < 4,
            col < 4,
        ensures
            bits == self.cells@[col * 4 + row],
    {
        self.cells[col * 4 + row]
    }
}

/// How a part is tied to its parent. The kinds are ordered by `rank`, and
/// `next` walks that order cyclically.
#[derive(Clone, Copy, Debug, PartialEq, Eq, Structural)]
pub enum Joint {
    Fix,
    Revolute,
    Prismatic,
}

impl Joint {
    /// The place of this kind in the declared order.
    pub open spec fn rank(self) -> nat {
        match self {
            Joint::Fix => 0,
            Joint::Revolute => 1,
            Joint::Prismatic => 2,
        }
    }

    /// The kind that follows this one; the last is followed by the first.
    pub open spec fn spec_next(self) -> Joint {
        match self {
            Joint::Fix => Joint::Revolute,
            Joint::Revolute => Joint::Prismatic,
            Joint::Prismatic => Joint::Fix,
        }
    }

    /// The kind reached from this one in `n` steps.
    pub open spec fn advanced(self, n: nat) -> Joint
        decreases n,
    {
        if n == 0 {
            self
        } else {
            self.spec_next().advanced((n - 1) as nat)
        }
    }

    /// The place of this kind in the declared order.
    pub fn index(self) -> (i: u8)
        ensures
            i == self.rank(),
            i < JOINT_KINDS,
    {
        match self {
            Joint::Fix => 0,
            Joint::Revolute => 1,
            Joint::Prismatic => 2,
        }
    }

    /// The kind at place `i` of the declared order, if there is one.
    pub fn from_index(i: u8) -> (joint: Option<Joint>)
        ensures
            i < JOINT_KINDS ==> joint is Some && joint->Some_0.rank() == i,
            i >= JOINT_KINDS ==> joint is None,
    {
        if i == 0 {
            Some(Joint::Fix)
        } else if i == 1 {
            Some(Joint::Revolute)
        } else if i == 2 {
            Some(Joint::Prismatic)
        } else {
            None
        }
    }

    /// The kind that follows this one.
    pub fn next(self) -> (joint: Joint)
        ensures
            joint == self.spec_next(),
    {
        match self {
            Joint::Fix => Joint::Revolute,
            Joint::Revolute => Joint::Prismatic,
            Joint::Prismatic => Joint::Fix,
        }
    }

    /// Replaces this kind by the one that follows it.
    pub fn replace_with_next(&mut self)
        ensures
            *final(self) == old(self).spec_next(),
    {
        *self = self.next();
    }

    /// One step moves a kind one place up in the order, modulo the number
    /// of kinds.
    pub proof fn lemma_next_rank(self)
        ensures
            self.spec_next().rank() == (self.rank() + 1) % (JOINT_KINDS as nat),
    {
    }

    /// `n` steps move a kind `n` places up in the order, modulo the number
    /// of kinds.
    pub proof fn lemma_advanced_rank(self, n: nat)
        ensures
            self.advanced(n).rank() == (self.rank() + n) % (JOINT_KINDS as nat),
        decreases n,
    {
        if n > 0 {
            self.lemma_next_rank();
            self.spec_next().lemma_advanced_rank((n - 1) as nat);
        }
    }

    /// Two kinds at the same place of the order are the same kind.
    pub proof fn lemma_rank_injective(a: Joint, b: Joint)
        requires
            a.rank() == b.rank(),
        ensures
            a == b,
    {
    }

    /// As many steps as there are kinds lead back to the kind one started
    /// from.
    pub proof fn lemma_full_cycle(self)
        ensures
            self.advanced(JOINT_KINDS as nat) == self,
    {
        self.lemma_advanced_rank(JOINT_KINDS as nat);
        Self::lemma_rank_injective(self.advanced(JOINT_KINDS as nat), self);
    }
}

/// A mesh placed on a part: the asset it is loaded from and where it sits
/// relative to the part.
#[derive(Debug, PartialEq, Eq)]
pub struct PlacedMesh {
    pub trans: Transform,
    pub mesh_path: String,
}

/// The mathematical content of a placed mesh.
pub struct MeshView {
    pub trans: Transform,
    pub mesh_path: Seq<char>,
}

impl View for PlacedMesh {
    type V = MeshView;

    open spec fn view(&self) -> MeshView {
        MeshView { trans: self.trans, mesh_path: self.mesh_path@ }
    }
}

impl Clone for PlacedMesh {
    fn clone(&self) -> (mesh: Self)
        ensures
            mesh@ == self@,
    {
        PlacedMesh { trans: self.trans, mesh_path: self.mesh_path.clone() }
    }
}

/// A spherical collider placed on a part.
#[derive(Clone, Copy, Debug, PartialEq, Eq)]
pub struct PlacedCollider {
    pub position: [u32; 3],
    pub radius: Scalar,
}

/// One rigid part, without its place in a tree.
#[derive(Debug, PartialEq, Eq)]
pub struct Part {
    pub parent_to_self: Transform,
    pub joint: Joint,
    pub placed_mesh: Option<PlacedMesh>,
    pub placed_collider: Option<PlacedCollider>,
}

/// The mathematical content of a part.
pub struct PartView {
    pub parent_to_self: Transform,
    pub joint: Joint,
    pub placed_mesh: Option<MeshView>,
    pub placed_collider: Option<PlacedCollider>,
}

/// The view of an optional mesh.
pub open spec fn mesh_option_view(mesh: Option<PlacedMesh>) -> Option<MeshView> {
    match mesh {
        Some(m) => Some(m@),
        None => None,
    }
}

impl View for Part {
    type V = PartView;

    open spec fn view(&self) -> PartView {
        PartView {
            parent_to_self: self.parent_to_self,
            joint: self.joint,
            placed_mesh: mesh_option_view(self.placed_mesh),
            placed_collider: self.placed_collider,
        }
    }
}

/// A copy of an optional mesh.
pub fn clone_mesh_option(mesh: &Option<PlacedMesh>) -> (copy: Option<PlacedMesh>)
    ensures
        mesh_option_view(copy) == mesh_option_view(*mesh),
{
    match mesh {
        Some(m) => Some(m.clone()),
        None => None,
    }
}

impl Clone for Part {
    fn clone(&self) -> (part: Self)
        ensures
            part@ == self@,
    {
        Part {
            parent_to_self: self.parent_to_self,
            joint: self.joint,
            placed_mesh: clone_mesh_option(&self.placed_mesh),
            placed_collider: self.placed_collider,
        }
    }
}

/// What a caller says of a part to be created. Whatever is left out takes
/// its default: the identity transform, a fixed joint, no mesh, no
/// collider.
#[derive(Debug, PartialEq, Eq)]
pub struct PartSpec {
    pub parent_to_self: Option<Transform>,
    pub joint: Option<Joint>,
    pub placed_mesh: Option<PlacedMesh>,
    pub placed_collider: Option<PlacedCollider>,
}

/// The mathematical content of a part specification.
pub struct PartSpecView {
    pub parent_to_self: Option<Transform>,
    pub joint: Option<Joint>,
    pub placed_mesh: Option<MeshView>,
    pub placed_collider: Option<PlacedCollider>,
}

impl PartSpecView {
    /// The part that this specification describes, defaults filled in.
    pub open spec fn resolved(self) -> PartView {
        PartView {
            parent_to_self: match self.parent_to_self {
                Some(t) => t,
                None => Transform::spec_identity(),
            },
            joint: match self.joint {
                Some(j) => j,
                None => Joint::Fix,
            },
            placed_mesh: self.placed_mesh,
            placed_collider: self.placed_collider,
        }
    }
}

impl View for PartSpec {
    type V = PartSpecView;

    open spec fn view(&self) -> PartSpecView {
        PartSpecView {
            parent_to_self: self.parent_to_self,
            joint: self.joint,
            placed_mesh: mesh_option_view(self.placed_mesh),
            placed_collider: self.placed_collider,
        }
    }
}

impl PartSpec {
    /// The specification that leaves everything to its default.
    pub fn new() -> (spec: PartSpec)
        ensures
            spec@ == (PartSpecView {
                parent_to_self: None,
                joint: None,
                placed_mesh: None,
                placed_collider: None,
            }),
    {
        PartSpec { parent_to_self: None, joint: None, placed_mesh: None, placed_collider: None }
    }

    /// The specification of a part that carries the mesh at `mesh_path`,
    /// placed by `trans`, and is otherwise default.
    pub fn with_mesh(mesh_path: String, trans: Transform) -> (spec: PartSpec)
        ensures
            spec@ == (PartSpecView {
                parent_to_self: None,
                joint: None,
                placed_mesh: Some(MeshView { trans, mesh_path: mesh_path@ }),
                placed_collider: None,
            }),
    {
        PartSpec {
            parent_to_self: None,
            joint: None,
            placed_mesh: Some(PlacedMesh { trans, mesh_path }),
            placed_collider: None,
        }
    }

    /// The part that this specification describes, defaults filled in.
    pub fn into_part(self) -> (part: Part)
        ensures
            part@ == self@.resolved(),
    {
        let parent_to_self = match self.parent_to_self {
            Some(t) => t,
            None => Transform::identity(),
        };
        let joint = match self.joint {
            Some(j) => j,
            None => Joint::Fix,
        };
        Part {
            parent_to_self,
            joint,
            placed_mesh: self.placed_mesh,
            placed_collider: self.placed_collider,
        }
    }
}

} // verus!
