//! The wire format of a part.
//!
//! A transform is its sixteen cells. A joint is the byte of its rank. A
//! string is the length of its UTF-8 encoding, as a 64-bit integer,
//! followed by that encoding. An optional value is the byte 0, or the
//! byte 1 followed by the value.

use crate::part::{
    mesh_option_view, Joint, MeshView, Part, PartView, PlacedCollider, PlacedMesh, Scalar,
    Transform,
};
use crate::wire::{
    enc_u32, enc_u64, enc_u8, get_bytes, get_u32, get_u64, get_u8, holds, lemma_enc_read_u32,
    lemma_enc_read_u64, lemma_enc_read_u8, lemma_holds_join, lemma_holds_split,
    lemma_read_enc_bytes, lemma_read_enc_u32, lemma_read_enc_u64, lemma_read_enc_u8, put_bytes,
    put_u32, put_u64, put_u8, read_bytes, read_u32, read_u64, read_u8,
};
use vstd::prelude::*;
use vstd::utf8::{
    decode_utf8, decode_utf8_encode_utf8, encode_utf8, encode_utf8_decode_utf8,
    encode_utf8_valid_utf8, valid_utf8,
};

verus! {

/// The encoding of a run of 32-bit integers, one after the other.
pub open spec fn enc_u32s(s: Seq<u32>) -> Seq<u8>
    decreases s.len(),
{
    if s.len() == 0 {
        Seq::empty()
    } else {
        enc_u32s(s.drop_last()) + enc_u32(s.last())
    }
}

/// The `n` 32-bit integers at `pos`.
pub open spec fn read_u32s(b: Seq<u8>, pos: int, n: nat) -> Option<(Seq<u32>, int)>
    decreases n,
{
    if n == 0 {
        Some((Seq::empty(), pos))
    } else {
        match read_u32s(b, pos, (n - 1) as nat) {
            Some((s, mid)) => match read_u32(b, mid) {
                Some((x, next)) => Some((s.push(x), next)),
                None => None,
            },
            None => None,
        }
    }
}

/// A run of 32-bit integers that was encoded is read back.
pub proof fn lemma_read_enc_u32s(b: Seq<u8>, pos: int, s: Seq<u32>)
    requires
        holds(b, pos, enc_u32s(s)),
    ensures
        read_u32s(b, pos, s.len()) == Some((s, pos + 4 * s.len())),
        enc_u32s(s).len() == 4 * s.len(),
    decreases s.len(),
{
    if s.len() > 0 {
        lemma_holds_split(b, pos, enc_u32s(s.drop_last()), enc_u32(s.last()));
        lemma_read_enc_u32s(b, pos, s.drop_last());
        lemma_read_enc_u32(b, pos + 4 * (s.len() - 1), s.last());
        assert(s.drop_last().push(s.last()) =~= s);
    }
}

/// The transform with the given sixteen cells.
pub open spec fn transform_from(s: Seq<u32>) -> Transform {
    Transform {
        cells: [
            s[0], s[1], s[2], s[3],
            s[4], s[5], s[6], s[7],
            s[8], s[9], s[10], s[11],
            s[12], s[13], s[14], s[15],
        ],
    }
}

/// A transform is the transform of its cells.
pub proof fn lemma_transform_from_cells(t: Transform)
    ensures
        transform_from(t.cells@) == t,
        t.cells@.len() == 16,
{
    assert(transform_from(t.cells@).cells =~= t.cells);
}

/// The encoding of a transform.
pub open spec fn enc_transform(t: Transform) -> Seq<u8> {
    enc_u32s(t.cells@)
}

/// The transform at `pos`.
pub open spec fn read_transform(b: Seq<u8>, pos: int) -> Option<(Transform, int)> {
    match read_u32s(b, pos, 16) {
        Some((s, next)) => Some((transform_from(s), next)),
        None => None,
    }
}

/// A transform that was encoded is read back.
pub proof fn lemma_read_enc_transform(b: Seq<u8>, pos: int, t: Transform)
    requires
        holds(b, pos, enc_transform(t)),
    ensures
        read_transform(b, pos) == Some((t, pos + 64)),
        enc_transform(t).len() == 64,
{
    lemma_transform_from_cells(t);
    lemma_read_enc_u32s(b, pos, t.cells@);
}

/// The joint with the given rank, if there is one.
pub open spec fn joint_of_rank(rank: u8) -> Option<Joint> {
    if rank == 0 {
        Some(Joint::Fix)
    } else if rank == 1 {
        Some(Joint::Revolute)
    } else if rank == 2 {
        Some(Joint::Prismatic)
    } else {
        None
    }
}

/// The encoding of a joint.
pub open spec fn enc_joint(j: Joint) -> Seq<u8> {
    enc_u8(j.rank() as u8)
}

/// The joint at `pos`.
pub open spec fn read_joint(b: Seq<u8>, pos: int) -> Option<(Joint, int)> {
    match read_u8(b, pos) {
        Some((rank, next)) => match joint_of_rank(rank) {
            Some(j) => Some((j, next)),
            None => None,
        },
        None => None,
    }
}

/// A joint that was encoded is read back.
pub proof fn lemma_read_enc_joint(b: Seq<u8>, pos: int, j: Joint)
    requires
        holds(b, pos, enc_joint(j)),
    ensures
        read_joint(b, pos) == Some((j, pos + 1)),
        enc_joint(j).len() == 1,
{
    lemma_read_enc_u8(b, pos, j.rank() as u8);
}

/// The UTF-8 encoding of the string is short enough for its length to be
/// written as a 64-bit integer.
pub open spec fn str_fits(chars: Seq<char>) -> bool {
    encode_utf8(chars).len() <= u64::MAX
}

/// The encoding of a string.
pub open spec fn enc_str(chars: Seq<char>) -> Seq<u8> {
    enc_u64(encode_utf8(chars).len() as u64) + encode_utf8(chars)
}

/// The string at `pos`.
pub open spec fn read_str(b: Seq<u8>, pos: int) -> Option<(Seq<char>, int)> {
    match read_u64(b, pos) {
        Some((n, mid)) => match read_bytes(b, mid, n as int) {
            Some((raw, next)) => if valid_utf8(raw) {
                Some((decode_utf8(raw), next))
            } else {
                None
            },
            None => None,
        },
        None => None,
    }
}

/// A string that was encoded is read back.
pub proof fn lemma_read_enc_str(b: Seq<u8>, pos: int, chars: Seq<char>)
    requires
        str_fits(chars),
        holds(b, pos, enc_str(chars)),
    ensures
        read_str(b, pos) == Some((chars, pos + enc_str(chars).len())),
{
    let raw = encode_utf8(chars);
    lemma_holds_split(b, pos, enc_u64(raw.len() as u64), raw);
    lemma_read_enc_u64(b, pos, raw.len() as u64);
    lemma_read_enc_bytes(b, pos + 8, raw);
    encode_utf8_valid_utf8(chars);
    encode_utf8_decode_utf8(chars);
}

/// The encoding of an optional mesh.
pub open spec fn enc_mesh(mesh: Option<MeshView>) -> Seq<u8> {
    match mesh {
        Some(m) => enc_u8(1) + enc_transform(m.trans) + enc_str(m.mesh_path),
        None => enc_u8(0),
    }
}

/// The optional mesh at `pos`.
pub open spec fn read_mesh(b: Seq<u8>, pos: int) -> Option<(Option<MeshView>, int)> {
    match read_u8(b, pos) {
        Some((flag, p1)) => if flag == 0 {
            Some((None, p1))
        } else if flag == 1 {
            match read_transform(b, p1) {
                Some((trans, p2)) => match read_str(b, p2) {
                    Some((mesh_path, p3)) => Some((Some(MeshView { trans, mesh_path }), p3)),
                    None => None,
                },
                None => None,
            }
        } else {
            None
        },
        None => None,
    }
}

/// The path of the mesh, if there is one, is short enough to be encoded.
pub open spec fn mesh_fits(mesh: Option<MeshView>) -> bool {
    match mesh {
        Some(m) => str_fits(m.mesh_path),
        None => true,
    }
}

/// An optional mesh that was encoded is read back.
pub proof fn lemma_read_enc_mesh(b: Seq<u8>, pos: int, mesh: Option<MeshView>)
    requires
        mesh_fits(mesh),
        holds(b, pos, enc_mesh(mesh)),
    ensures
        read_mesh(b, pos) == Some((mesh, pos + enc_mesh(mesh).len())),
{
    match mesh {
        Some(m) => {
            lemma_holds_split(b, pos, enc_u8(1) + enc_transform(m.trans), enc_str(m.mesh_path));
            lemma_holds_split(b, pos, enc_u8(1), enc_transform(m.trans));
            lemma_read_enc_u8(b, pos, 1);
            lemma_read_enc_transform(b, pos + 1, m.trans);
            lemma_read_enc_str(b, pos + 65, m.mesh_path);
        },
        None => {
            lemma_read_enc_u8(b, pos, 0);
        },
    }
}

/// The collider with the given position cells and radius.
pub open spec fn collider_from(s: Seq<u32>, radius: u32) -> PlacedCollider {
    PlacedCollider { position: [s[0], s[1], s[2]], radius: Scalar { bits: radius } }
}

/// The encoding of an optional collider.
pub open spec fn enc_collider(collider: Option<PlacedCollider>) -> Seq<u8> {
    match collider {
        Some(c) => enc_u8(1) + enc_u32s(c.position@) + enc_u32(c.radius.bits),
        None => enc_u8(0),
    }
}

/// The optional collider at `pos`.
pub open spec fn read_collider(b: Seq<u8>, pos: int) -> Option<(Option<PlacedCollider>, int)> {
    match read_u8(b, pos) {
        Some((flag, p1)) => if flag == 0 {
            Some((None, p1))
        } else if flag == 1 {
            match read_u32s(b, p1, 3) {
                Some((s, p2)) => match read_u32(b, p2) {
                    Some((radius, p3)) => Some((Some(collider_from(s, radius)), p3)),
                    None => None,
                },
                None => None,
            }
        } else {
            None
        },
        None => None,
    }
}

/// An optional collider that was encoded is read back.
pub proof fn lemma_read_enc_collider(b: Seq<u8>, pos: int, collider: Option<PlacedCollider>)
    requires
        holds(b, pos, enc_collider(collider)),
    ensures
        read_collider(b, pos) == Some((collider, pos + enc_collider(collider).len())),
{
    match collider {
        Some(c) => {
            lemma_holds_split(b, pos, enc_u8(1) + enc_u32s(c.position@), enc_u32(c.radius.bits));
            lemma_holds_split(b, pos, enc_u8(1), enc_u32s(c.position@));
            lemma_read_enc_u8(b, pos, 1);
            lemma_read_enc_u32s(b, pos + 1, c.position@);
            lemma_read_enc_u32(b, pos + 13, c.radius.bits);
            assert(collider_from(c.position@, c.radius.bits).position =~= c.position);
        },
        None => {
            lemma_read_enc_u8(b, pos, 0);
        },
    }
}

/// The encoding of a part.
pub open spec fn enc_part(part: PartView) -> Seq<u8> {
    enc_transform(part.parent_to_self) + enc_joint(part.joint) + enc_mesh(part.placed_mesh)
        + enc_collider(part.placed_collider)
}

/// The part at `pos`.
pub open spec fn read_part(b: Seq<u8>, pos: int) -> Option<(PartView, int)> {
    match read_transform(b, pos) {
        Some((parent_to_self, p1)) => match read_joint(b, p1) {
            Some((joint, p2)) => match read_mesh(b, p2) {
                Some((placed_mesh, p3)) => match read_collider(b, p3) {
                    Some((placed_collider, p4)) => Some(
                        (PartView { parent_to_self, joint, placed_mesh, placed_collider }, p4),
                    ),
                    None => None,
                },
                None => None,
            },
            None => None,
        },
        None => None,
    }
}

/// The part is small enough to be encoded.
pub open spec fn part_fits(part: PartView) -> bool {
    mesh_fits(part.placed_mesh)
}

/// A part that was encoded is read back.
pub proof fn lemma_read_enc_part(b: Seq<u8>, pos: int, part: PartView)
    requires
        part_fits(part),
        holds(b, pos, enc_part(part)),
    ensures
        read_part(b, pos) == Some((part, pos + enc_part(part).len())),
{
    let e1 = enc_transform(part.parent_to_self);
    let e2 = enc_joint(part.joint);
    let e3 = enc_mesh(part.placed_mesh);
    let e4 = enc_collider(part.placed_collider);
    lemma_holds_split(b, pos, e1 + e2 + e3, e4);
    lemma_holds_split(b, pos, e1 + e2, e3);
    lemma_holds_split(b, pos, e1, e2);
    lemma_read_enc_transform(b, pos, part.parent_to_self);
    lemma_read_enc_joint(b, pos + 64, part.joint);
    lemma_read_enc_mesh(b, pos + 65, part.placed_mesh);
    lemma_read_enc_collider(b, pos + 65 + e3.len(), part.placed_collider);
}

/// Where fewer than `n` integers can be read, `n` cannot.
pub proof fn lemma_read_u32s_stops(b: Seq<u8>, pos: int, i: nat, n: nat)
    requires
        i <= n,
        read_u32s(b, pos, i) is None,
    ensures
        read_u32s(b, pos, n) is None,
    decreases n,
{
    if i < n {
        lemma_read_u32s_stops(b, pos, i, (n - 1) as nat);
    }
}

/// Appends the encoding of a run of 32-bit integers.
pub fn put_u32s(out: &mut Vec<u8>, cells: &[u32])
    ensures
        final(out)@ == old(out)@ + enc_u32s(cells@),
{
    let mut i: usize = 0;
    assert(old(out)@ + enc_u32s(cells@.subrange(0, 0)) =~= old(out)@);
    while i < cells.len()
        invariant
            i <= cells@.len(),
            out@ == old(out)@ + enc_u32s(cells@.subrange(0, i as int)),
        decreases cells@.len() - i,
    {
        put_u32(out, cells[i]);
        proof {
            let done = cells@.subrange(0, i as int);
            let more = cells@.subrange(0, i + 1);
            assert(more.drop_last() =~= done);
            assert(out@ =~= old(out)@ + enc_u32s(more));
        }
        i += 1;
    }
    assert(cells@.subrange(0, i as int) =~= cells@);
}

/// Reads the `n` 32-bit integers at `pos`.
pub fn get_u32s(b: &[u8], pos: usize, n: usize) -> (r: Option<(Vec<u32>, usize)>)
    ensures
        match r {
            Some((cells, next)) => read_u32s(b@, pos as int, n as nat) == Some(
                (cells@, next as int),
            ),
            None => read_u32s(b@, pos as int, n as nat) is None,
        },
{
    let mut cells: Vec<u32> = Vec::new();
    let mut cur: usize = pos;
    let mut i: usize = 0;
    while i < n
        invariant
            i <= n,
            read_u32s(b@, pos as int, i as nat) == Some((cells@, cur as int)),
        decreases n - i,
    {
        match get_u32(b, cur) {
            Some((x, next)) => {
                cells.push(x);
                cur = next;
            },
            None => {
                proof {
                    lemma_read_u32s_stops(b@, pos as int, (i + 1) as nat, n as nat);
                }
                return None;
            },
        }
        i += 1;
    }
    Some((cells, cur))
}

/// Appends the encoding of a transform.
pub fn put_transform(out: &mut Vec<u8>, t: &Transform)
    ensures
        final(out)@ == old(out)@ + enc_transform(*t),
{
    put_u32s(out, t.cells.as_slice());
}

/// Reads the transform at `pos`.
pub fn get_transform(b: &[u8], pos: usize) -> (r: Option<(Transform, usize)>)
    ensures
        match r {
            Some((t, next)) => read_transform(b@, pos as int) == Some((t, next as int)),
            None => read_transform(b@, pos as int) is None,
        },
{
    match get_u32s(b, pos, 16) {
        Some((s, next)) => {
            proof {
                lemma_read_u32s_len(b@, pos as int, 16);
            }
            let t = Transform {
                cells: [
                    s[0], s[1], s[2], s[3],
                    s[4], s[5], s[6], s[7],
                    s[8], s[9], s[10], s[11],
                    s[12], s[13], s[14], s[15],
                ],
            };
            assert(t.cells =~= transform_from(s@).cells);
            Some((t, next))
        },
        None => None,
    }
}

/// Reading `n` integers gives `n` integers.
pub proof fn lemma_read_u32s_len(b: Seq<u8>, pos: int, n: nat)
    ensures
        read_u32s(b, pos, n) is Some ==> read_u32s(b, pos, n)->Some_0.0.len() == n,
    decreases n,
{
    if n > 0 {
        lemma_read_u32s_len(b, pos, (n - 1) as nat);
    }
}

/// Appends the encoding of a joint.
pub fn put_joint(out: &mut Vec<u8>, j: Joint)
    ensures
        final(out)@ == old(out)@ + enc_joint(j),
{
    put_u8(out, j.index());
}

/// Reads the joint at `pos`.
pub fn get_joint(b: &[u8], pos: usize) -> (r: Option<(Joint, usize)>)
    ensures
        match r {
            Some((j, next)) => read_joint(b@, pos as int) == Some((j, next as int)),
            None => read_joint(b@, pos as int) is None,
        },
{
    match get_u8(b, pos) {
        Some((rank, next)) => match Joint::from_index(rank) {
            Some(j) => {
                proof {
                    Joint::lemma_rank_injective(j, joint_of_rank(rank)->Some_0);
                }
                Some((j, next))
            },
            None => None,
        },
        None => None,
    }
}

/// `String::from_utf8` of the standard library: it gives a string exactly
/// when the bytes are valid UTF-8, and the string is then the one that the
/// bytes encode.
#[verifier::external_body]
fn string_from_utf8(bytes: Vec<u8>) -> (s: Option<String>)
    ensures
        match s {
            Some(s) => valid_utf8(bytes@) && s@ == decode_utf8(bytes@),
            None => !valid_utf8(bytes@),
        },
{
    String::from_utf8(bytes).ok()
}

/// Appends the encoding of a string.
pub fn put_str(out: &mut Vec<u8>, s: &str)
    ensures
        final(out)@ == old(out)@ + enc_str(s@),
        str_fits(s@),
{
    let raw: &[u8] = s.as_bytes();
    put_u64(out, raw.len() as u64);
    put_bytes(out, raw);
    assert(out@ =~= old(out)@ + enc_str(s@));
}

/// Reads the string at `pos`.
pub fn get_str(b: &[u8], pos: usize) -> (r: Option<(String, usize)>)
    ensures
        match r {
            Some((s, next)) => read_str(b@, pos as int) == Some((s@, next as int)),
            None => read_str(b@, pos as int) is None,
        },
{
    let (n, mid) = match get_u64(b, pos) {
        Some(r) => r,
        None => {
            return None;
        },
    };
    let len: usize = b.len();
    if n > usize::MAX as u64 {
        assert(mid + n > len);
        return None;
    }
    let (raw, next) = match get_bytes(b, mid, n as usize) {
        Some(r) => r,
        None => {
            return None;
        },
    };
    match string_from_utf8(raw) {
        Some(s) => Some((s, next)),
        None => None,
    }
}

/// Appends the encoding of an optional mesh.
pub fn put_mesh(out: &mut Vec<u8>, mesh: &Option<PlacedMesh>)
    ensures
        final(out)@ == old(out)@ + enc_mesh(mesh_option_view(*mesh)),
        mesh_fits(mesh_option_view(*mesh)),
{
    match mesh {
        Some(m) => {
            put_u8(out, 1);
            put_transform(out, &m.trans);
            put_str(out, m.mesh_path.as_str());
            assert(out@ =~= old(out)@ + enc_mesh(mesh_option_view(*mesh)));
        },
        None => {
            put_u8(out, 0);
        },
    }
}

/// Reads the optional mesh at `pos`.
pub fn get_mesh(b: &[u8], pos: usize) -> (r: Option<(Option<PlacedMesh>, usize)>)
    ensures
        match r {
            Some((mesh, next)) => read_mesh(b@, pos as int) == Some(
                (mesh_option_view(mesh), next as int),
            ),
            None => read_mesh(b@, pos as int) is None,
        },
{
    let (flag, p1) = match get_u8(b, pos) {
        Some(r) => r,
        None => {
            return None;
        },
    };
    if flag == 0 {
        return Some((None, p1));
    }
    if flag != 1 {
        return None;
    }
    let (trans, p2) = match get_transform(b, p1) {
        Some(r) => r,
        None => {
            return None;
        },
    };
    match get_str(b, p2) {
        Some((mesh_path, p3)) => Some((Some(PlacedMesh { trans, mesh_path }), p3)),
        None => None,
    }
}

/// Appends the encoding of an optional collider.
pub fn put_collider(out: &mut Vec<u8>, collider: &Option<PlacedCollider>)
    ensures
        final(out)@ == old(out)@ + enc_collider(*collider),
{
    match collider {
        Some(c) => {
            put_u8(out, 1);
            put_u32s(out, c.position.as_slice());
            put_u32(out, c.radius.bits);
            assert(out@ =~= old(out)@ + enc_collider(*collider));
        },
        None => {
            put_u8(out, 0);
        },
    }
}

/// Reads the optional collider at `pos`.
pub fn get_collider(b: &[u8], pos: usize) -> (r: Option<(Option<PlacedCollider>, usize)>)
    ensures
        match r {
            Some((collider, next)) => read_collider(b@, pos as int) == Some(
                (collider, next as int),
            ),
            None => read_collider(b@, pos as int) is None,
        },
{
    let (flag, p1) = match get_u8(b, pos) {
        Some(r) => r,
        None => {
            return None;
        },
    };
    if flag == 0 {
        return Some((None, p1));
    }
    if flag != 1 {
        return None;
    }
    let (s, p2) = match get_u32s(b, p1, 3) {
        Some(r) => r,
        None => {
            return None;
        },
    };
    proof {
        lemma_read_u32s_len(b@, p1 as int, 3);
    }
    match get_u32(b, p2) {
        Some((radius, p3)) => {
            let c = PlacedCollider { position: [s[0], s[1], s[2]], radius: Scalar { bits: radius } };
            assert(c.position =~= collider_from(s@, radius).position);
            Some((Some(c), p3))
        },
        None => None,
    }
}

/// Appends the encoding of a part.
pub fn put_part(out: &mut Vec<u8>, part: &Part)
    ensures
        final(out)@ == old(out)@ + enc_part(part@),
        part_fits(part@),
{
    put_transform(out, &part.parent_to_self);
    put_joint(out, part.joint);
    put_mesh(out, &part.placed_mesh);
    put_collider(out, &part.placed_collider);
    assert(out@ =~= old(out)@ + enc_part(part@));
}

/// Reads the part at `pos`.
pub fn get_part(b: &[u8], pos: usize) -> (r: Option<(Part, usize)>)
    ensures
        match r {
            Some((part, next)) => read_part(b@, pos as int) == Some((part@, next as int)),
            None => read_part(b@, pos as int) is None,
        },
{
    let (parent_to_self, p1) = match get_transform(b, pos) {
        Some(r) => r,
        None => {
            return None;
        },
    };
    let (joint, p2) = match get_joint(b, p1) {
        Some(r) => r,
        None => {
            return None;
        },
    };
    let (placed_mesh, p3) = match get_mesh(b, p2) {
        Some(r) => r,
        None => {
            return None;
        },
    };
    match get_collider(b, p3) {
        Some((placed_collider, p4)) => Some(
            (Part { parent_to_self, joint, placed_mesh, placed_collider }, p4),
        ),
        None => None,
    }
}

/// A run of 32-bit integers that is read stands there in its encoding.
pub proof fn lemma_enc_read_u32s(b: Seq<u8>, pos: int, n: nat)
    requires
        0 <= pos <= b.len(),
        read_u32s(b, pos, n) is Some,
    ensures
        holds(b, pos, enc_u32s(read_u32s(b, pos, n)->Some_0.0)),
        read_u32s(b, pos, n)->Some_0.1 == pos + 4 * n,
        read_u32s(b, pos, n)->Some_0.0.len() == n,
        enc_u32s(read_u32s(b, pos, n)->Some_0.0).len() == 4 * n,
    decreases n,
{
    if n == 0 {
        assert(b.subrange(pos, pos) =~= Seq::<u8>::empty());
    } else {
        lemma_enc_read_u32s(b, pos, (n - 1) as nat);
        let (front, mid) = read_u32s(b, pos, (n - 1) as nat)->Some_0;
        lemma_enc_read_u32(b, mid);
        let x = read_u32(b, mid)->Some_0.0;
        lemma_holds_join(b, pos, enc_u32s(front), enc_u32(x));
        assert(front.push(x).drop_last() =~= front);
    }
}

/// A transform that is read stands there in its encoding.
pub proof fn lemma_enc_read_transform(b: Seq<u8>, pos: int)
    requires
        0 <= pos <= b.len(),
        read_transform(b, pos) is Some,
    ensures
        holds(b, pos, enc_transform(read_transform(b, pos)->Some_0.0)),
        read_transform(b, pos)->Some_0.1 == pos + 64,
        enc_transform(read_transform(b, pos)->Some_0.0).len() == 64,
{
    lemma_enc_read_u32s(b, pos, 16);
    let s = read_u32s(b, pos, 16)->Some_0.0;
    assert(transform_from(s).cells@ =~= s);
}

/// A rank that names a joint is the rank of that joint.
pub proof fn lemma_joint_of_rank(rank: u8)
    requires
        joint_of_rank(rank) is Some,
    ensures
        joint_of_rank(rank)->Some_0.rank() == rank,
{
}

/// A joint that is read stands there in its encoding.
pub proof fn lemma_enc_read_joint(b: Seq<u8>, pos: int)
    requires
        read_joint(b, pos) is Some,
    ensures
        holds(b, pos, enc_joint(read_joint(b, pos)->Some_0.0)),
        read_joint(b, pos)->Some_0.1 == pos + 1,
        enc_joint(read_joint(b, pos)->Some_0.0).len() == 1,
{
    lemma_enc_read_u8(b, pos);
    lemma_joint_of_rank(read_u8(b, pos)->Some_0.0);
}

/// A string that is read stands there in its encoding, and is short
/// enough to be encoded.
pub proof fn lemma_enc_read_str(b: Seq<u8>, pos: int)
    requires
        read_str(b, pos) is Some,
    ensures
        holds(b, pos, enc_str(read_str(b, pos)->Some_0.0)),
        read_str(b, pos)->Some_0.1 == pos + enc_str(read_str(b, pos)->Some_0.0).len(),
        str_fits(read_str(b, pos)->Some_0.0),
{
    lemma_enc_read_u64(b, pos);
    let n = read_u64(b, pos)->Some_0.0;
    let raw = read_bytes(b, pos + 8, n as int)->Some_0.0;
    decode_utf8_encode_utf8(raw);
    lemma_holds_join(b, pos, enc_u64(n), raw);
}

/// An optional mesh that is read stands there in its encoding, and is
/// small enough to be encoded.
pub proof fn lemma_enc_read_mesh(b: Seq<u8>, pos: int)
    requires
        read_mesh(b, pos) is Some,
    ensures
        holds(b, pos, enc_mesh(read_mesh(b, pos)->Some_0.0)),
        read_mesh(b, pos)->Some_0.1 == pos + enc_mesh(read_mesh(b, pos)->Some_0.0).len(),
        mesh_fits(read_mesh(b, pos)->Some_0.0),
{
    lemma_enc_read_u8(b, pos);
    let flag = read_u8(b, pos)->Some_0.0;
    if flag == 1 {
        lemma_enc_read_transform(b, pos + 1);
        lemma_enc_read_str(b, pos + 65);
        let trans = read_transform(b, pos + 1)->Some_0.0;
        let path = read_str(b, pos + 65)->Some_0.0;
        lemma_holds_join(b, pos, enc_u8(1), enc_transform(trans));
        lemma_holds_join(b, pos, enc_u8(1) + enc_transform(trans), enc_str(path));
    }
}

/// An optional collider that is read stands there in its encoding.
pub proof fn lemma_enc_read_collider(b: Seq<u8>, pos: int)
    requires
        read_collider(b, pos) is Some,
    ensures
        holds(b, pos, enc_collider(read_collider(b, pos)->Some_0.0)),
        read_collider(b, pos)->Some_0.1 == pos + enc_collider(
            read_collider(b, pos)->Some_0.0,
        ).len(),
{
    lemma_enc_read_u8(b, pos);
    let flag = read_u8(b, pos)->Some_0.0;
    if flag == 1 {
        lemma_enc_read_u32s(b, pos + 1, 3);
        let s = read_u32s(b, pos + 1, 3)->Some_0.0;
        lemma_enc_read_u32(b, pos + 13);
        let radius = read_u32(b, pos + 13)->Some_0.0;
        assert(collider_from(s, radius).position@ =~= s);
        lemma_holds_join(b, pos, enc_u8(1), enc_u32s(s));
        lemma_holds_join(b, pos, enc_u8(1) + enc_u32s(s), enc_u32(radius));
    }
}

/// A part that is read stands there in its encoding, and is small enough
/// to be encoded.
pub proof fn lemma_enc_read_part(b: Seq<u8>, pos: int)
    requires
        0 <= pos <= b.len(),
        read_part(b, pos) is Some,
    ensures
        holds(b, pos, enc_part(read_part(b, pos)->Some_0.0)),
        read_part(b, pos)->Some_0.1 == pos + enc_part(read_part(b, pos)->Some_0.0).len(),
        part_fits(read_part(b, pos)->Some_0.0),
{
    lemma_enc_read_transform(b, pos);
    lemma_enc_read_joint(b, pos + 64);
    lemma_enc_read_mesh(b, pos + 65);
    let part = read_part(b, pos)->Some_0.0;
    let e1 = enc_transform(part.parent_to_self);
    let e2 = enc_joint(part.joint);
    let e3 = enc_mesh(part.placed_mesh);
    lemma_enc_read_collider(b, pos + 65 + e3.len());
    let e4 = enc_collider(part.placed_collider);
    lemma_holds_join(b, pos, e1, e2);
    lemma_holds_join(b, pos, e1 + e2, e3);
    lemma_holds_join(b, pos, e1 + e2 + e3, e4);
}

} // verus!
