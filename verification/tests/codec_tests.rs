use botcore::botdef::BotDef;
use botcore::error::CoreError;
use botcore::id::{Id, PartId};
use botcore::part::{
    Joint, Part, PartSpec, PlacedCollider, PlacedMesh, Scalar, Transform,
};
use botcore::part_tree::PartTree;
use botcore::wire::{get_i32, get_u32, get_u64, get_u8, put_i32, put_u32, put_u64, put_u8};

fn bits(x: f32) -> Scalar {
    Scalar { bits: x.to_bits() }
}

fn pid(value: u64) -> PartId {
    Id::from_value(value)
}

fn root_only(tree_id: u64) -> BotDef {
    let part = Part {
        parent_to_self: Transform::identity(),
        joint: Joint::Fix,
        placed_mesh: None,
        placed_collider: None,
    };
    BotDef {
        id: Id::from_value(0x0102_0304_0506_0708),
        radius: bits(0.5),
        max_life: 100,
        turn_accel: bits(1.5),
        max_turn_rate: bits(1.5),
        accel: bits(0.1),
        break_accel: bits(0.3),
        max_speed: bits(1.0),
        part_tree: PartTree::with_root(pid(tree_id), part),
    }
}

fn nested() -> BotDef {
    let mut def = root_only(1);
    def.max_life = -7;
    def.radius = bits(f32::MIN_POSITIVE);
    def.accel = Scalar { bits: 0x7FC0_0001 };
    let mut placed = Transform::identity();
    placed.cells[12] = (-3.25f32).to_bits();
    placed.cells[5] = 0.1f32.to_bits();
    let tree = &mut def.part_tree;
    tree.insert_child_with_id(
        pid(1),
        PartSpec {
            parent_to_self: Some(placed),
            joint: Some(Joint::Revolute),
            placed_mesh: Some(PlacedMesh {
                trans: placed,
                mesh_path: String::from("./src/asset/tête/châssis.obj"),
            }),
            placed_collider: Some(PlacedCollider {
                position: [1.0f32.to_bits(), 2.0f32.to_bits(), 3.0f32.to_bits()],
                radius: bits(0.75),
            }),
        },
        pid(u64::MAX),
    )
    .unwrap();
    tree.insert_child_with_id(
        pid(u64::MAX),
        PartSpec::with_mesh(String::new(), Transform::identity()),
        pid(20),
    )
    .unwrap();
    tree.insert_child_with_id(
        pid(1),
        PartSpec { joint: Some(Joint::Prismatic), ..PartSpec::new() },
        pid(30),
    )
    .unwrap();
    tree.insert_child_with_id(pid(u64::MAX), PartSpec::new(), pid(40)).unwrap();
    def
}

#[test]
fn scalars_are_written_in_little_endian_order() {
    let mut out = Vec::new();
    put_u8(&mut out, 0xAB);
    put_u32(&mut out, 0x0102_0304);
    put_u64(&mut out, 0x1122_3344_5566_7788);
    put_i32(&mut out, -2);
    assert_eq!(
        out,
        vec![
            0xAB, 0x04, 0x03, 0x02, 0x01, 0x88, 0x77, 0x66, 0x55, 0x44, 0x33, 0x22, 0x11, 0xFE,
            0xFF, 0xFF, 0xFF
        ]
    );
    assert_eq!(get_u8(&out, 0), Some((0xAB, 1)));
    assert_eq!(get_u32(&out, 1), Some((0x0102_0304, 5)));
    assert_eq!(get_u64(&out, 5), Some((0x1122_3344_5566_7788, 13)));
    assert_eq!(get_i32(&out, 13), Some((-2, 17)));
    assert_eq!(get_u8(&out, 17), None);
    assert_eq!(get_u32(&out, 14), None);
    assert_eq!(get_u64(&out, 10), None);
    assert_eq!(get_i32(&out, usize::MAX), None);
}

#[test]
fn signed_integers_survive_at_the_ends_of_their_range() {
    for x in [i32::MIN, -1, 0, 1, i32::MAX] {
        let mut out = Vec::new();
        put_i32(&mut out, x);
        assert_eq!(out, x.to_le_bytes().to_vec());
        assert_eq!(get_i32(&out, 0), Some((x, 4)));
    }
}

#[test]
fn a_root_only_definition_has_this_encoding() {
    let bytes = root_only(9).encode();
    let mut expected: Vec<u8> = Vec::new();
    expected.extend_from_slice(&0x0102_0304_0506_0708u64.to_le_bytes());
    expected.extend_from_slice(&0.5f32.to_le_bytes());
    expected.extend_from_slice(&100i32.to_le_bytes());
    expected.extend_from_slice(&1.5f32.to_le_bytes());
    expected.extend_from_slice(&1.5f32.to_le_bytes());
    expected.extend_from_slice(&0.1f32.to_le_bytes());
    expected.extend_from_slice(&0.3f32.to_le_bytes());
    expected.extend_from_slice(&1.0f32.to_le_bytes());
    expected.extend_from_slice(&1u64.to_le_bytes());
    expected.extend_from_slice(&9u64.to_le_bytes());
    expected.extend_from_slice(&0u64.to_le_bytes());
    for col in 0..4 {
        for row in 0..4 {
            let cell = if row == col { 1.0f32 } else { 0.0f32 };
            expected.extend_from_slice(&cell.to_le_bytes());
        }
    }
    expected.push(0);
    expected.push(0);
    expected.push(0);
    assert_eq!(bytes, expected);
    assert_eq!(bytes.len(), 36 + 8 + 16 + 64 + 3);
}

#[test]
fn decoding_undoes_encoding() {
    let def = root_only(3);
    assert_eq!(BotDef::decode(&def.encode()), Ok(root_only(3)));
    let def = nested();
    let bytes = def.encode();
    let back = BotDef::decode(&bytes).unwrap();
    assert_eq!(back, def);
    assert_eq!(back.encode(), bytes);
    let order: Vec<u64> = back.part_tree.iter().iter().map(|n| n.id().value()).collect();
    assert_eq!(order, vec![1, u64::MAX, 20, 40, 30]);
    let mesh = back.part_tree.find(pid(u64::MAX)).unwrap().part().placed_mesh.as_ref().unwrap();
    assert_eq!(mesh.mesh_path, "./src/asset/tête/châssis.obj");
    assert_eq!(f32::from_bits(mesh.trans.cells[12]), -3.25);
    assert_eq!(back.accel.bits, 0x7FC0_0001);
    assert_eq!(back.max_life, -7);
    assert_eq!(def.clone(), def);
}

#[test]
fn bytes_that_encode_nothing_are_corrupt() {
    assert_eq!(BotDef::decode(&[]), Err(CoreError::CorruptData));
    assert_eq!(BotDef::decode(&[0u8; 35]), Err(CoreError::CorruptData));
    // a tuning followed by a tree of no nodes
    assert_eq!(BotDef::decode(&[0u8; 44]), Err(CoreError::CorruptData));
    let good = nested().encode();
    for cut in [1, 36, 43, 44, 60, good.len() - 1] {
        assert_eq!(BotDef::decode(&good[..cut]), Err(CoreError::CorruptData));
    }
    let mut longer = good.clone();
    longer.push(0);
    assert_eq!(BotDef::decode(&longer), Err(CoreError::CorruptData));
}

#[test]
fn bytes_that_break_a_rule_of_the_format_are_corrupt() {
    let good = root_only(9).encode();
    let joint = 36 + 8 + 16 + 64;
    assert_eq!(BotDef::decode(&good).map(|d| d.part_tree.len()), Ok(1));
    // a joint rank that names no joint
    let mut bad = good.clone();
    bad[joint] = 3;
    assert_eq!(BotDef::decode(&bad), Err(CoreError::CorruptData));
    // a flag that is neither 0 nor 1
    let mut bad = good.clone();
    bad[joint + 1] = 2;
    assert_eq!(BotDef::decode(&bad), Err(CoreError::CorruptData));
    let mut bad = good.clone();
    bad[joint + 2] = 0xFF;
    assert_eq!(BotDef::decode(&bad), Err(CoreError::CorruptData));
    // a root that is not at depth 0
    let mut bad = good.clone();
    bad[36 + 16] = 1;
    assert_eq!(BotDef::decode(&bad), Err(CoreError::CorruptData));
    // more nodes announced than there are
    let mut bad = good.clone();
    bad[36] = 2;
    assert_eq!(BotDef::decode(&bad), Err(CoreError::CorruptData));
    let mut bad = good.clone();
    bad[36 + 7] = 0xFF;
    assert_eq!(BotDef::decode(&bad), Err(CoreError::CorruptData));
}

#[test]
fn a_path_that_is_not_utf8_is_corrupt() {
    let mut def = root_only(9);
    def.part_tree.find_mut(pid(9)).unwrap().placed_mesh =
        Some(PlacedMesh { trans: Transform::identity(), mesh_path: String::from("ab") });
    let good = def.encode();
    let path = good.len() - 1 - 2;
    assert_eq!(&good[path..path + 2], b"ab");
    assert_eq!(BotDef::decode(&good), Ok(def));
    let mut bad = good.clone();
    bad[path] = 0xFF;
    assert_eq!(BotDef::decode(&bad), Err(CoreError::CorruptData));
    // a length that runs past the end
    let mut bad = good.clone();
    bad[path - 8] = 3;
    assert_eq!(BotDef::decode(&bad), Err(CoreError::CorruptData));
    let mut bad = good.clone();
    bad[path - 1] = 0x80;
    assert_eq!(BotDef::decode(&bad), Err(CoreError::CorruptData));
}

#[test]
fn two_nodes_with_one_identifier_are_corrupt() {
    let mut def = root_only(9);
    def.part_tree.insert_child_with_id(pid(9), PartSpec::new(), pid(10)).unwrap();
    let good = def.encode();
    let node = 8 + 8 + 64 + 3;
    let second_id = 36 + 8 + node;
    assert_eq!(good[second_id], 10);
    assert_eq!(BotDef::decode(&good), Ok(def));
    let mut bad = good.clone();
    bad[second_id] = 9;
    assert_eq!(BotDef::decode(&bad), Err(CoreError::CorruptData));
    // a second node that is deeper than its index
    let mut bad = good.clone();
    bad[second_id + 8] = 2;
    assert_eq!(BotDef::decode(&bad), Err(CoreError::CorruptData));
    // a second root
    let mut bad = good.clone();
    bad[second_id + 8] = 0;
    assert_eq!(BotDef::decode(&bad), Err(CoreError::CorruptData));
}

#[test]
fn a_negative_life_counts_as_zero() {
    let mut def = root_only(1);
    def.set_max_life(-5);
    assert_eq!(def.max_life, 0);
    def.set_max_life(250);
    assert_eq!(def.max_life, 250);
    def.set_max_life(0);
    assert_eq!(def.max_life, 0);
    assert_eq!(def.radius, bits(0.5));
}
