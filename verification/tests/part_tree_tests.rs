use botcore::error::CoreError;
use botcore::id::{Id, PartId};
use botcore::part::{
    Joint, Part, PartSpec, PlacedCollider, PlacedMesh, Scalar, Transform, JOINT_KINDS, ONE_BITS,
};
use botcore::part_tree::{PartNode, PartTree};

fn bare() -> Part {
    Part {
        parent_to_self: Transform::identity(),
        joint: Joint::Fix,
        placed_mesh: None,
        placed_collider: None,
    }
}

fn id(value: u64) -> PartId {
    Id::from_value(value)
}

fn ids_in_order(tree: &PartTree) -> Vec<u64> {
    tree.iter().iter().map(|n| n.id().value()).collect()
}

fn depths_in_order(tree: &PartTree) -> Vec<usize> {
    tree.iter().iter().map(|n| n.depth()).collect()
}

/// root(1) -> a(2) -> aa(3), ab(4) ; root -> b(5)
fn sample() -> PartTree {
    let mut tree = PartTree::with_root(id(1), bare());
    assert_eq!(tree.insert_child_with_id(id(1), PartSpec::new(), id(2)), Ok(id(2)));
    assert_eq!(tree.insert_child_with_id(id(2), PartSpec::new(), id(3)), Ok(id(3)));
    assert_eq!(tree.insert_child_with_id(id(1), PartSpec::new(), id(5)), Ok(id(5)));
    assert_eq!(tree.insert_child_with_id(id(2), PartSpec::new(), id(4)), Ok(id(4)));
    tree
}

#[test]
fn identity_is_one_on_the_diagonal() {
    let t = Transform::identity();
    assert_eq!(ONE_BITS, 1.0f32.to_bits());
    for col in 0..4 {
        for row in 0..4 {
            let expected = if row == col { 1.0f32 } else { 0.0f32 };
            assert_eq!(f32::from_bits(t.cell(row, col)), expected);
        }
    }
}

#[test]
fn insert_child_under_root_gives_two_nodes_and_identity_transform() {
    let mut tree = PartTree::with_root(id(1), bare());
    let spec = PartSpec::with_mesh(String::from("a.obj"), Transform::identity());
    let child_id = tree.insert_child(id(1), spec).unwrap();
    assert_eq!(tree.len(), 2);
    assert!(child_id.value() != 1);
    let child = tree.find(child_id).unwrap();
    assert_eq!(child.id(), child_id);
    assert_eq!(child.part().parent_to_self, Transform::identity());
    assert_eq!(child.part().joint, Joint::Fix);
    assert_eq!(child.part().placed_mesh.as_ref().unwrap().mesh_path, "a.obj");
    assert_eq!(child.part().placed_collider, None);
    assert_eq!(child.depth(), 1);
    assert_eq!(tree.parent(child_id), Ok(Some(id(1))));
}

#[test]
fn remove_root_fails_and_leaves_tree_unchanged() {
    let mut tree = sample();
    let before = ids_in_order(&tree);
    assert_eq!(tree.remove(id(1)), Err(CoreError::CannotRemoveRoot));
    assert_eq!(ids_in_order(&tree), before);
    assert_eq!(tree.len(), 5);
}

#[test]
fn remove_first_child_returns_parent_and_keeps_second_child() {
    let mut tree = PartTree::with_root(id(10), bare());
    let c1 = tree.insert_child(id(10), PartSpec::new()).unwrap();
    let c2 = tree.insert_child(id(10), PartSpec::new()).unwrap();
    assert_eq!(tree.children(id(10)), Ok(vec![c1, c2]));
    assert_eq!(tree.remove(c1), Ok(id(10)));
    assert_eq!(tree.len(), 2);
    assert_eq!(tree.children(id(10)), Ok(vec![c2]));
    assert!(tree.find(c1).is_none());
    assert!(tree.find(c2).is_some());
}

#[test]
fn nodes_stand_in_preorder_with_siblings_in_insertion_order() {
    let tree = sample();
    assert_eq!(ids_in_order(&tree), vec![1, 2, 3, 4, 5]);
    assert_eq!(depths_in_order(&tree), vec![0, 1, 2, 2, 1]);
    assert_eq!(tree.children(id(1)), Ok(vec![id(2), id(5)]));
    assert_eq!(tree.children(id(2)), Ok(vec![id(3), id(4)]));
    assert_eq!(tree.children(id(3)), Ok(vec![]));
    assert_eq!(tree.children(id(9)), Err(CoreError::NodeNotFound));
    assert_eq!(tree.root_id(), id(1));
}

#[test]
fn parent_and_subtree_size_follow_the_shape() {
    let tree = sample();
    assert_eq!(tree.parent(id(1)), Ok(None));
    assert_eq!(tree.parent(id(2)), Ok(Some(id(1))));
    assert_eq!(tree.parent(id(4)), Ok(Some(id(2))));
    assert_eq!(tree.parent(id(5)), Ok(Some(id(1))));
    assert_eq!(tree.parent(id(6)), Err(CoreError::NodeNotFound));
    assert_eq!(tree.subtree_size(id(1)), Ok(5));
    assert_eq!(tree.subtree_size(id(2)), Ok(3));
    assert_eq!(tree.subtree_size(id(3)), Ok(1));
    assert_eq!(tree.subtree_size(id(5)), Ok(1));
    assert_eq!(tree.subtree_size(id(6)), Err(CoreError::NodeNotFound));
}

#[test]
fn remove_deletes_the_whole_subtree_and_nothing_else() {
    let mut tree = sample();
    let size = tree.subtree_size(id(2)).unwrap();
    assert_eq!(tree.remove(id(2)), Ok(id(1)));
    assert_eq!(tree.len(), 5 - size);
    assert!(!tree.contains(id(2)));
    assert!(!tree.contains(id(3)));
    assert!(!tree.contains(id(4)));
    assert_eq!(ids_in_order(&tree), vec![1, 5]);
    assert_eq!(depths_in_order(&tree), vec![0, 1]);
}

#[test]
fn remove_of_a_leaf_returns_its_parent() {
    let mut tree = sample();
    assert_eq!(tree.remove(id(4)), Ok(id(2)));
    assert_eq!(ids_in_order(&tree), vec![1, 2, 3, 5]);
    assert_eq!(tree.remove(id(4)), Err(CoreError::NodeNotFound));
    assert_eq!(ids_in_order(&tree), vec![1, 2, 3, 5]);
}

#[test]
fn insert_under_missing_parent_fails_and_changes_nothing() {
    let mut tree = sample();
    assert_eq!(tree.insert_child(id(77), PartSpec::new()), Err(CoreError::NodeNotFound));
    assert_eq!(
        tree.insert_child_with_id(id(77), PartSpec::new(), id(78)),
        Err(CoreError::NodeNotFound)
    );
    assert_eq!(ids_in_order(&tree), vec![1, 2, 3, 4, 5]);
}

#[test]
fn a_taken_candidate_moves_on_to_the_first_free_value() {
    let mut tree = sample();
    // 3, 4 and 5 are taken, so the candidate 3 ends up as 6.
    assert_eq!(tree.insert_child_with_id(id(3), PartSpec::new(), id(3)), Ok(id(6)));
    assert_eq!(ids_in_order(&tree), vec![1, 2, 3, 6, 4, 5]);
    assert_eq!(tree.parent(id(6)), Ok(Some(id(3))));
}

#[test]
fn the_candidate_wraps_round_at_the_largest_value() {
    let mut tree = PartTree::with_root(id(u64::MAX), bare());
    assert_eq!(tree.insert_child_with_id(id(u64::MAX), PartSpec::new(), id(u64::MAX)), Ok(id(0)));
    assert_eq!(tree.insert_child_with_id(id(0), PartSpec::new(), id(u64::MAX)), Ok(id(1)));
    assert_eq!(ids_in_order(&tree), vec![u64::MAX, 0, 1]);
}

#[test]
fn insert_child_allocates_distinct_identifiers() {
    let mut tree = PartTree::new(PartSpec::new());
    let root = tree.root_id();
    let mut seen = vec![root];
    for _ in 0..50 {
        let new_id = tree.insert_child(root, PartSpec::new()).unwrap();
        assert!(!seen.contains(&new_id));
        seen.push(new_id);
    }
    assert_eq!(tree.len(), 51);
    assert_eq!(tree.children(root).unwrap(), seen[1..].to_vec());
}

#[test]
fn find_mut_changes_the_part_that_find_returns() {
    let mut tree = sample();
    let mut moved = Transform::identity();
    moved.cells[12] = 2.5f32.to_bits();
    {
        let part = tree.find_mut(id(3)).unwrap();
        part.parent_to_self = moved;
        part.placed_collider =
            Some(PlacedCollider { position: [0, 0, 0], radius: Scalar { bits: ONE_BITS } });
    }
    let node = tree.find(id(3)).unwrap();
    assert_eq!(node.id(), id(3));
    assert_eq!(node.depth(), 2);
    assert_eq!(node.part().parent_to_self, moved);
    assert_eq!(node.part().placed_collider.unwrap().radius.bits, 1.0f32.to_bits());
    assert_eq!(tree.find(id(4)).unwrap().part(), &bare());
    assert!(tree.find_mut(id(42)).is_none());
    assert_eq!(ids_in_order(&tree), vec![1, 2, 3, 4, 5]);
}

#[test]
fn spec_overrides_are_taken_and_the_rest_is_default() {
    let mut tree = PartTree::with_root(id(1), bare());
    let mut moved = Transform::identity();
    moved.cells[13] = 7.0f32.to_bits();
    let spec = PartSpec {
        parent_to_self: Some(moved),
        joint: Some(Joint::Revolute),
        placed_mesh: None,
        placed_collider: None,
    };
    let new_id = tree.insert_child(id(1), spec).unwrap();
    let part = tree.find(new_id).unwrap().part();
    assert_eq!(part.parent_to_self, moved);
    assert_eq!(part.joint, Joint::Revolute);
    assert_eq!(part.placed_mesh, None);
    let plain = PartSpec::new().into_part();
    assert_eq!(plain, bare());
}

#[test]
fn cycling_the_joint_as_often_as_there_are_kinds_returns() {
    let mut tree = sample();
    assert_eq!(JOINT_KINDS, 3);
    assert_eq!(tree.cycle_joint(id(4)), Ok(()));
    assert_eq!(tree.find(id(4)).unwrap().part().joint, Joint::Revolute);
    assert_eq!(tree.cycle_joint(id(4)), Ok(()));
    assert_eq!(tree.find(id(4)).unwrap().part().joint, Joint::Prismatic);
    assert_eq!(tree.cycle_joint(id(4)), Ok(()));
    assert_eq!(tree.find(id(4)).unwrap().part().joint, Joint::Fix);
    assert_eq!(tree.find(id(3)).unwrap().part().joint, Joint::Fix);
    assert_eq!(tree.cycle_joint(id(40)), Err(CoreError::NodeNotFound));
}

#[test]
fn joint_order_is_declared() {
    assert_eq!(Joint::Fix.index(), 0);
    assert_eq!(Joint::Revolute.index(), 1);
    assert_eq!(Joint::Prismatic.index(), 2);
    assert_eq!(Joint::from_index(1), Some(Joint::Revolute));
    assert_eq!(Joint::from_index(3), None);
    assert_eq!(Joint::Prismatic.next(), Joint::Fix);
    let mut j = Joint::Fix;
    j.replace_with_next();
    assert_eq!(j, Joint::Revolute);
}

#[test]
fn from_preorder_accepts_trees_only() {
    let node = |i: u64, depth: usize| PartNode::new(id(i), depth, bare());
    let ok = PartTree::from_preorder(vec![node(1, 0), node(2, 1), node(3, 2), node(4, 1)]);
    assert_eq!(ids_in_order(&ok.unwrap()), vec![1, 2, 3, 4]);
    assert_eq!(PartTree::from_preorder(vec![]), Err(CoreError::CorruptData));
    assert_eq!(PartTree::from_preorder(vec![node(1, 1)]), Err(CoreError::CorruptData));
    assert_eq!(
        PartTree::from_preorder(vec![node(1, 0), node(2, 0)]),
        Err(CoreError::CorruptData)
    );
    assert_eq!(
        PartTree::from_preorder(vec![node(1, 0), node(2, 2)]),
        Err(CoreError::CorruptData)
    );
    assert_eq!(
        PartTree::from_preorder(vec![node(1, 0), node(2, 1), node(1, 1)]),
        Err(CoreError::CorruptData)
    );
}

#[test]
fn mesh_paths_come_in_preorder() {
    let mut tree = PartTree::with_root(id(1), bare());
    let mesh = |p: &str| PartSpec::with_mesh(String::from(p), Transform::identity());
    tree.insert_child_with_id(id(1), mesh("a.obj"), id(2)).unwrap();
    tree.insert_child_with_id(id(1), PartSpec::new(), id(3)).unwrap();
    tree.insert_child_with_id(id(2), mesh("b.obj"), id(4)).unwrap();
    tree.insert_child_with_id(id(3), mesh("c.obj"), id(5)).unwrap();
    assert_eq!(tree.mesh_paths(), vec!["a.obj", "b.obj", "c.obj"]);
    let copy = tree.clone();
    assert_eq!(copy, tree);
    let mesh_of_two: &PlacedMesh =
        copy.find(id(2)).unwrap().part().placed_mesh.as_ref().unwrap();
    assert_eq!(mesh_of_two.clone().mesh_path, "a.obj");
}
