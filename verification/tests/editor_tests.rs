use botcore::assets::{controls_for, may_use, AssetCache, AssetControls, AssetState};
use botcore::botdef::BotDef;
use botcore::error::CoreError;
use botcore::event_loop::{react, EventLoopMsg, LoopAction, LoopEvent, IDLE_PAUSE_MILLIS};
use botcore::file_tree::FileTree;
use botcore::id::{allocate, Id, PartId};
use botcore::input_state::InputState;
use botcore::part::{Joint, PartSpec, Transform};
use botcore::unit_editor::UnitEditor;

fn placed(x: f32) -> Transform {
    let mut t = Transform::identity();
    t.cells[12] = x.to_bits();
    t
}

fn order(editor: &UnitEditor) -> Vec<u64> {
    editor.botdef.part_tree.iter().iter().map(|n| n.id().value()).collect()
}

#[test]
fn a_new_editor_holds_a_root_with_a_cube() {
    let editor = UnitEditor::new(placed(4.0));
    assert_eq!(editor.orbit, [300.0f32.to_bits(), 100.0f32.to_bits(), 0.5f32.to_bits()]);
    assert_eq!(editor.asset_dir_cached, FileTree::Unknown);
    assert!(editor.asset_dir_cached.needs_scan());
    let def = &editor.botdef;
    assert_eq!(f32::from_bits(def.radius.bits), 0.5);
    assert_eq!(def.max_life, 100);
    assert_eq!(f32::from_bits(def.turn_accel.bits), 1.5);
    assert_eq!(f32::from_bits(def.max_turn_rate.bits), 1.5);
    assert_eq!(f32::from_bits(def.accel.bits), 0.1);
    assert_eq!(f32::from_bits(def.break_accel.bits), 0.3);
    assert_eq!(f32::from_bits(def.max_speed.bits), 1.0);
    let nodes = def.part_tree.iter();
    assert_eq!(nodes.len(), 2);
    assert_eq!(editor.selected_id, nodes[0].id());
    assert_eq!(nodes[0].depth(), 0);
    assert_eq!(nodes[0].part(), &PartSpec::new().into_part());
    assert_eq!(nodes[1].depth(), 1);
    assert!(nodes[0].id() != nodes[1].id());
    let child = nodes[1].part();
    assert_eq!(child.parent_to_self, Transform::identity());
    assert_eq!(child.joint, Joint::Fix);
    assert_eq!(child.placed_collider, None);
    let mesh = child.placed_mesh.as_ref().unwrap();
    assert_eq!(mesh.mesh_path, "./src/asset/cube.obj");
    assert_eq!(mesh.trans, placed(4.0));
}

#[test]
fn parts_are_added_under_the_selection() {
    let mut editor = UnitEditor::new(Transform::identity());
    let root = editor.selected_id;
    let cube = editor.botdef.part_tree.children(root).unwrap()[0];
    assert_eq!(editor.select(cube), Ok(()));
    let wheel = editor.add_to_parts(String::from("wheel.obj"), placed(1.0)).unwrap();
    assert_eq!(editor.selected_id, cube);
    assert_eq!(editor.botdef.part_tree.parent(wheel), Ok(Some(cube)));
    let part = editor.botdef.part_tree.find(wheel).unwrap().part();
    assert_eq!(part.placed_mesh.as_ref().unwrap().mesh_path, "wheel.obj");
    assert_eq!(part.placed_mesh.as_ref().unwrap().trans, placed(1.0));
    assert_eq!(part.parent_to_self, Transform::identity());
    let arm = editor.add_child(root, String::from("arm.obj"), placed(2.0)).unwrap();
    assert_eq!(order(&editor), vec![root.value(), cube.value(), wheel.value(), arm.value()]);
    let missing: PartId = Id::from_value(wheel.value().wrapping_add(12345));
    if !editor.botdef.part_tree.contains(missing) {
        assert_eq!(
            editor.add_child(missing, String::from("x.obj"), placed(0.0)),
            Err(CoreError::NodeNotFound)
        );
        assert_eq!(editor.select(missing), Err(CoreError::NodeNotFound));
        assert_eq!(editor.selected_id, cube);
    }
    assert_eq!(editor.botdef.part_tree.len(), 4);
}

/// An identifier that names no part of the editor's tree.
fn missing_from(editor: &UnitEditor) -> PartId {
    let mut value: u64 = 1;
    while editor.botdef.part_tree.contains(Id::from_value(value)) {
        value += 1;
    }
    Id::from_value(value)
}

#[test]
fn nothing_is_added_when_the_selection_names_no_part() {
    let mut editor = UnitEditor::new(Transform::identity());
    let root = editor.selected_id;
    let before = order(&editor);
    let dangling = missing_from(&editor);
    editor.selected_id = dangling;
    assert!(!editor.is_well_formed());
    assert_eq!(
        editor.add_to_parts(String::from("wheel.obj"), placed(1.0)),
        Err(CoreError::NodeNotFound)
    );
    assert_eq!(order(&editor), before);
    assert_eq!(editor.botdef.part_tree.children(root).unwrap().len(), 1);
    assert_eq!(editor.selected_id, dangling);

    // the other commands do not read the selection
    let cube = editor.botdef.part_tree.children(root).unwrap()[0];
    assert_eq!(editor.cycle_joint(cube), Ok(()));
    assert_eq!(editor.set_transform(cube, placed(2.0)), Ok(()));
    assert!(editor.add_child(root, String::from("arm.obj"), placed(0.0)).is_ok());
    assert_eq!(editor.selected_id, dangling);
    assert!(!editor.is_well_formed());

    // selecting a part puts the selection right
    assert_eq!(editor.select(dangling), Err(CoreError::NodeNotFound));
    assert_eq!(editor.selected_id, dangling);
    assert_eq!(editor.select(cube), Ok(()));
    assert!(editor.is_well_formed());
    assert!(editor.add_to_parts(String::from("wheel.obj"), placed(1.0)).is_ok());

    // and so does removing one
    editor.selected_id = missing_from(&editor);
    assert_eq!(editor.remove(cube), Ok(()));
    assert_eq!(editor.selected_id, root);
    assert!(editor.is_well_formed());
}

#[test]
fn removing_the_selection_selects_the_nearest_ancestor_that_remains() {
    let mut editor = UnitEditor::new(Transform::identity());
    let root = editor.selected_id;
    let cube = editor.botdef.part_tree.children(root).unwrap()[0];
    let arm = editor.add_child(cube, String::from("arm.obj"), placed(0.0)).unwrap();
    let hand = editor.add_child(arm, String::from("hand.obj"), placed(0.0)).unwrap();
    let leg = editor.add_child(root, String::from("leg.obj"), placed(0.0)).unwrap();

    // the selection is below the part that goes
    editor.select(hand).unwrap();
    assert_eq!(editor.remove(arm), Ok(()));
    assert_eq!(editor.selected_id, cube);
    assert_eq!(order(&editor), vec![root.value(), cube.value(), leg.value()]);

    // the selection is elsewhere
    editor.select(leg).unwrap();
    assert_eq!(editor.remove(cube), Ok(()));
    assert_eq!(editor.selected_id, leg);

    // the selection is the part that goes
    assert_eq!(editor.remove(leg), Ok(()));
    assert_eq!(editor.selected_id, root);
    assert_eq!(order(&editor), vec![root.value()]);

    assert_eq!(editor.remove(root), Err(CoreError::CannotRemoveRoot));
    assert_eq!(editor.remove(leg), Err(CoreError::NodeNotFound));
    assert_eq!(order(&editor), vec![root.value()]);
    assert_eq!(editor.selected_id, root);
}

#[test]
fn a_replaced_mesh_sits_where_the_old_one_sat() {
    let mut editor = UnitEditor::new(placed(3.0));
    let root = editor.selected_id;
    let cube = editor.botdef.part_tree.children(root).unwrap()[0];
    assert_eq!(editor.replace_mesh(cube, String::from("ball.obj")), Ok(()));
    let mesh = editor.botdef.part_tree.find(cube).unwrap().part().placed_mesh.clone().unwrap();
    assert_eq!(mesh.mesh_path, "ball.obj");
    assert_eq!(mesh.trans, placed(3.0));
    assert_eq!(editor.replace_mesh(root, String::from("base.obj")), Ok(()));
    let mesh = editor.botdef.part_tree.find(root).unwrap().part().placed_mesh.clone().unwrap();
    assert_eq!(mesh.mesh_path, "base.obj");
    assert_eq!(mesh.trans, Transform::identity());
    let missing: PartId = Id::from_value(root.value() ^ cube.value() ^ 1);
    if !editor.botdef.part_tree.contains(missing) {
        assert_eq!(
            editor.replace_mesh(missing, String::from("x.obj")),
            Err(CoreError::NodeNotFound)
        );
    }
}

#[test]
fn transforms_and_joints_change_one_part_only() {
    let mut editor = UnitEditor::new(placed(3.0));
    let root = editor.selected_id;
    let cube = editor.botdef.part_tree.children(root).unwrap()[0];
    let before_root = editor.botdef.part_tree.find(root).unwrap().part().clone();
    assert_eq!(editor.set_transform(cube, placed(8.0)), Ok(()));
    assert_eq!(editor.set_mesh_transform(cube, placed(9.0)), Ok(()));
    assert_eq!(editor.cycle_joint(cube), Ok(()));
    let part = editor.botdef.part_tree.find(cube).unwrap().part();
    assert_eq!(part.parent_to_self, placed(8.0));
    assert_eq!(part.placed_mesh.as_ref().unwrap().trans, placed(9.0));
    assert_eq!(part.placed_mesh.as_ref().unwrap().mesh_path, "./src/asset/cube.obj");
    assert_eq!(part.joint, Joint::Revolute);
    assert_eq!(editor.botdef.part_tree.find(root).unwrap().part(), &before_root);
    // a part without a mesh stays without one
    assert_eq!(editor.set_mesh_transform(root, placed(9.0)), Ok(()));
    assert_eq!(editor.botdef.part_tree.find(root).unwrap().part(), &before_root);
    assert_eq!(editor.selected_id, root);
}

#[test]
fn loading_a_definition_selects_its_root_and_lists_its_meshes() {
    let mut editor = UnitEditor::new(Transform::identity());
    let mut other = UnitEditor::new(Transform::identity());
    let other_root = other.selected_id;
    other.add_child(other_root, String::from("b.obj"), placed(0.0)).unwrap();
    let bytes = other.botdef.encode();
    let def = BotDef::decode(&bytes).unwrap();
    let paths = editor.load(def);
    assert_eq!(paths, vec!["./src/asset/cube.obj", "b.obj"]);
    assert_eq!(editor.selected_id, other_root);
    assert_eq!(editor.botdef, other.botdef);
}

#[test]
fn what_an_asset_offers_depends_on_how_its_load_went() {
    assert_eq!(
        controls_for(None),
        AssetControls { offer_use: true, load_first: true, offer_reload: false, show_error: false }
    );
    let usable =
        AssetControls { offer_use: true, load_first: false, offer_reload: true, show_error: false };
    assert_eq!(controls_for(Some(&AssetState::Loading)), usable);
    assert_eq!(controls_for(Some(&AssetState::Ready)), usable);
    assert_eq!(
        controls_for(Some(&AssetState::Error(String::from("no such file")))),
        AssetControls { offer_use: false, load_first: false, offer_reload: true, show_error: true }
    );
    assert!(!may_use(None));
    assert!(may_use(Some(&AssetState::Loading)));
    assert!(may_use(Some(&AssetState::Ready)));
    assert!(!may_use(Some(&AssetState::Error(String::from("no such file")))));
}

#[test]
fn the_cache_keeps_the_last_state_of_each_path() {
    let mut cache = AssetCache::new();
    let a = String::from("a.obj");
    let b = String::from("b.obj");
    assert_eq!(cache.get(&a), None);
    assert!(UnitEditor::open_obj(&mut cache, a.clone(), Ok(())));
    assert!(!UnitEditor::open_obj(&mut cache, b.clone(), Err(String::from("bad face"))));
    assert_eq!(cache.get(&a), Some(&AssetState::Loading));
    assert_eq!(cache.get(&b), Some(&AssetState::Error(String::from("bad face"))));
    cache.set(a.clone(), AssetState::Ready);
    assert_eq!(cache.get(&a), Some(&AssetState::Ready));
    assert!(cache.record_load(b.clone(), Ok(())));
    assert_eq!(cache.get(&b), Some(&AssetState::Loading));
    assert!(!cache.record_load(a.clone(), Err(String::from("gone"))));
    assert_eq!(cache.get(&a), Some(&AssetState::Error(String::from("gone"))));
    assert_eq!(cache.get(&String::from("c.obj")), None);
    assert_eq!(cache.load_error(&a), Some(CoreError::AssetLoadError(String::from("gone"))));
    assert_eq!(cache.load_error(&b), None);
    assert_eq!(cache.load_error(&String::from("c.obj")), None);
}

#[test]
fn a_failed_load_leaves_the_path_on_the_part() {
    let mut editor = UnitEditor::new(Transform::identity());
    let root = editor.selected_id;
    let cube = editor.botdef.part_tree.children(root).unwrap()[0];
    let mut cache = AssetCache::new();
    for path in editor.botdef.part_tree.mesh_paths() {
        assert!(!UnitEditor::open_obj(&mut cache, path, Err(String::from("unreadable"))));
    }
    let mesh = editor.botdef.part_tree.find(cube).unwrap().part().placed_mesh.as_ref().unwrap();
    assert_eq!(mesh.mesh_path, "./src/asset/cube.obj");
    assert!(controls_for(cache.get(&mesh.mesh_path)).offer_reload);
}

#[test]
fn only_files_with_the_mesh_extension_are_meshes() {
    let leaf = |path: &str, ext: &str| FileTree::Leaf {
        path: String::from(path),
        extension: String::from(ext),
    };
    assert!(leaf("asset/cube.obj", "obj").is_mesh());
    assert!(!leaf("asset/cube.png", "png").is_mesh());
    assert!(!leaf("asset/obj", "").is_mesh());
    assert!(!leaf("asset/cube.OBJ", "OBJ").is_mesh());
    assert!(!leaf("asset/cube.objx", "objx").is_mesh());
    assert!(!FileTree::Unknown.is_mesh());
    let dir = FileTree::Node {
        path: String::from("asset.obj"),
        children: vec![leaf("asset.obj/a.obj", "obj")],
    };
    assert!(!dir.is_mesh());
    assert!(!dir.needs_scan());
    let mut editor = UnitEditor::new(Transform::identity());
    assert!(editor.is_well_formed());
    editor.set_asset_dir(leaf("a.obj", "obj"));
    assert!(editor.asset_dir_cached.is_mesh());
    editor.invalidate_asset_dir();
    assert_eq!(editor.asset_dir_cached, FileTree::Unknown);
    editor.selected_id = Id::from_value(editor.selected_id.value().wrapping_add(1));
    let dangling = !editor.botdef.part_tree.contains(editor.selected_id);
    assert_eq!(editor.is_well_formed(), !dangling);
    assert!(editor.botdef.part_tree.is_well_formed());
    assert!(!leaf("a.obj", "obj").needs_scan());
    assert!(FileTree::Unknown.needs_scan());
}

#[test]
fn the_event_loop_forwards_pauses_and_leaves() {
    assert_eq!(IDLE_PAUSE_MILLIS, 4);
    assert_eq!(react(LoopEvent::Window), LoopAction::Forward);
    assert_eq!(react(LoopEvent::Other), LoopAction::Ignore);
    assert_eq!(
        react(LoopEvent::EventsCleared(None)),
        LoopAction::Pause { millis: 4, exit: false }
    );
    assert_eq!(
        react(LoopEvent::EventsCleared(Some(EventLoopMsg::Stop))),
        LoopAction::Pause { millis: 4, exit: true }
    );
}

#[test]
fn identifiers_carry_their_value() {
    let a: PartId = Id::from_value(5);
    let b: PartId = Id::from_value(5);
    let c: PartId = Id::from_value(6);
    assert_eq!(a.value(), 5);
    assert!(a.same(&b));
    assert!(!a.same(&c));
    assert_eq!(a, b);
    assert_eq!(a.clone(), a);
    let fresh: Vec<PartId> = (0..8).map(|_| allocate()).collect();
    assert_eq!(fresh.len(), 8);
    let empty = InputState::new();
    assert!(empty.key_pressed.is_empty() && empty.mouse_pressed.is_empty());
    assert_eq!((empty.cursor_x, empty.cursor_y), (0, 0));
}
