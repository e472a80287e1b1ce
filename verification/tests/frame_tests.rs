use botcore::botdef::BotDef;
use botcore::error::CoreError;
use botcore::frame::{Frame, FrameEvent, FrameProfiler, Player};
use botcore::heightmap_phy::HeightmapPhy;
use botcore::id::{Id, PlayerId};
use botcore::input_state::InputState;
use botcore::mobile::{KBot, KinematicProjectile};
use botcore::part::{Joint, Part, Scalar, Transform};
use botcore::part_tree::PartTree;
use std::collections::HashSet;

fn player(id: u64, team: u8) -> Player {
    Player { id: Id::from_value(id), mobiles: HashSet::new(), team }
}

fn pid(id: u64) -> PlayerId {
    Id::from_value(id)
}

fn input(id: u64, key: u32) -> FrameEvent {
    FrameEvent::PlayerInput {
        id: Id::from_value(id),
        input_state: InputState {
            key_pressed: vec![key],
            mouse_pressed: vec![],
            cursor_x: 10,
            cursor_y: 20,
        },
        selected: [7u64, 8u64].into_iter().collect(),
        mouse_world_pos: Some([1.0f32.to_bits(), 2.0f32.to_bits(), 0]),
    }
}

/// A complete frame with the given number and players 1 and 2.
fn frame_at(number: i32) -> Frame {
    let mut frame = Frame::new();
    frame.add_player(player(1, 0));
    frame.add_player(player(2, 1));
    for _ in 0..number {
        assert_eq!(frame.step(vec![]), Ok(()));
    }
    frame
}

#[test]
fn a_new_frame_is_tick_zero_of_an_empty_world() {
    let frame = Frame::new();
    assert_eq!(frame.number(), 0);
    assert!(frame.is_complete());
    assert_eq!(frame.pending_events(), 0);
    assert!(frame.player(pid(1)).is_none());
    assert!(frame.kbots().is_empty());
    assert!(frame.kinematic_projectiles().is_empty());
    assert_eq!(frame.heightmap_phy(), &HeightmapPhy::new(16, 16));
    assert_eq!(frame.heightmap_phy().width(), 16);
    assert_eq!(frame.heightmap_phy().height(), 16);
    assert_eq!(frame.frame_profiler(), FrameProfiler::default());
    assert_eq!(FrameProfiler::default(), FrameProfiler { total: 0, update_units: 0, handle_events: 0 });
}

#[test]
fn a_new_player_has_no_bots_and_plays_for_team_zero() {
    let p = Player::new();
    assert!(p.mobiles.is_empty());
    assert_eq!(p.team, 0);
}

#[test]
fn a_step_applies_the_queue_counts_the_frame_and_completes_it() {
    let mut frame = frame_at(5);
    assert_eq!(frame.number(), 5);
    assert_eq!(frame.push_event(input(1, 32)), Ok(()));
    assert_eq!(frame.pending_events(), 1);
    assert_eq!(frame.step(vec![]), Ok(()));
    assert_eq!(frame.number(), 6);
    assert_eq!(frame.pending_events(), 0);
    assert!(frame.is_complete());
    let intent = frame.intent(pid(1)).unwrap();
    assert_eq!(intent.input_state.key_pressed, vec![32]);
    assert_eq!(intent.input_state.cursor_x, 10);
    assert!(intent.selected.contains(&7) && intent.selected.contains(&8));
    assert_eq!(intent.mouse_world_pos, Some([1.0f32.to_bits(), 2.0f32.to_bits(), 0]));
    assert!(frame.intent(pid(2)).is_none());
    assert_eq!(frame.player(pid(1)), Some(&player(1, 0)));
    assert_eq!(frame.player(pid(2)), Some(&player(2, 1)));
}

#[test]
fn an_event_of_an_unknown_player_is_dropped() {
    let mut frame = frame_at(2);
    assert_eq!(frame.step(vec![input(99, 1), input(2, 5)]), Ok(()));
    assert_eq!(frame.number(), 3);
    assert!(frame.is_complete());
    assert_eq!(frame.pending_events(), 0);
    assert!(frame.intent(pid(99)).is_none());
    assert!(frame.player(pid(99)).is_none());
    assert_eq!(frame.intent(pid(2)).unwrap().input_state.key_pressed, vec![5]);
    assert!(frame.intent(pid(1)).is_none());
}

#[test]
fn events_are_applied_in_the_order_in_which_they_arrived() {
    let mut frame = frame_at(0);
    assert_eq!(frame.push_event(input(1, 1)), Ok(()));
    assert_eq!(frame.step(vec![input(1, 2), input(2, 3), input(1, 4)]), Ok(()));
    assert_eq!(frame.intent(pid(1)).unwrap().input_state.key_pressed, vec![4]);
    assert_eq!(frame.intent(pid(2)).unwrap().input_state.key_pressed, vec![3]);
}

#[test]
fn intents_last_for_one_tick() {
    let mut frame = frame_at(0);
    assert_eq!(frame.step(vec![input(1, 1)]), Ok(()));
    assert!(frame.intent(pid(1)).is_some());
    assert_eq!(frame.step(vec![]), Ok(()));
    assert!(frame.intent(pid(1)).is_none());
    assert_eq!(frame.number(), 2);
}

#[test]
fn a_step_is_a_function_of_frame_and_events() {
    let run = |profiler: FrameProfiler| {
        let mut frame = frame_at(3);
        frame.set_frame_profiler(profiler);
        assert_eq!(frame.step(vec![input(2, 9), input(5, 1), input(1, 4)]), Ok(()));
        frame
    };
    let mut a = run(FrameProfiler { total: 1, update_units: 2, handle_events: 3 });
    let b = run(FrameProfiler { total: 9, update_units: 9, handle_events: 9 });
    assert_eq!(a.number(), b.number());
    assert_eq!(a.is_complete(), b.is_complete());
    assert_eq!(a.player(pid(1)), b.player(pid(1)));
    assert_eq!(a.player(pid(2)), b.player(pid(2)));
    assert_eq!(a.intent(pid(1)), b.intent(pid(1)));
    assert_eq!(a.intent(pid(2)), b.intent(pid(2)));
    assert_eq!(a.kbots(), b.kbots());
    assert_eq!(a.kinematic_projectiles(), b.kinematic_projectiles());
    assert_eq!(a.heightmap_phy(), b.heightmap_phy());
    assert!(a != b);
    a.set_frame_profiler(b.frame_profiler());
    assert_eq!(a.frame_profiler().total, 9);
    assert_eq!(a, b);
}

#[test]
fn a_replacement_takes_the_place_of_the_frame() {
    let mut other = Frame::new();
    other.add_player(player(42, 3));
    for _ in 0..10 {
        other.step(vec![input(42, 1)]).unwrap();
    }
    other.heightmap_phy_mut().set_z(2, 3, 5.0f32.to_bits());
    let mut frame = frame_at(2);
    frame.set_frame_profiler(FrameProfiler { total: 7, update_units: 0, handle_events: 0 });
    assert_eq!(frame.step(vec![FrameEvent::ReplaceFrame(other)]), Ok(()));
    assert_eq!(frame.number(), 11);
    assert!(frame.is_complete());
    assert_eq!(frame.pending_events(), 0);
    assert_eq!(frame.player(pid(42)), Some(&player(42, 3)));
    assert!(frame.player(pid(1)).is_none());
    assert!(frame.intent(pid(42)).is_none());
    assert_eq!(frame.heightmap_phy().z(2, 3), Some(5.0f32.to_bits()));
    assert_eq!(frame.frame_profiler().total, 7);
}

#[test]
fn a_replacement_in_which_events_wait_is_taken_and_its_queue_emptied() {
    let mut waiting = Frame::new();
    waiting.add_player(player(42, 3));
    waiting.step(vec![]).unwrap();
    waiting.push_event(input(42, 1)).unwrap();
    assert_eq!(waiting.pending_events(), 1);
    let mut frame = frame_at(4);
    assert_eq!(frame.push_event(FrameEvent::ReplaceFrame(waiting)), Ok(()));
    assert_eq!(frame.pending_events(), 1);
    assert_eq!(frame.number(), 4);
    assert_eq!(frame.step(vec![]), Ok(()));
    assert_eq!(frame.number(), 2);
    assert_eq!(frame.pending_events(), 0);
    assert!(frame.is_complete());
    assert_eq!(frame.player(pid(42)), Some(&player(42, 3)));
    assert!(frame.player(pid(1)).is_none());
    assert!(frame.intent(pid(42)).is_none());
}

#[test]
fn a_replacement_can_only_be_queued_alone() {
    let mut frame = frame_at(1);
    assert_eq!(frame.push_event(input(1, 1)), Ok(()));
    assert_eq!(
        frame.push_event(FrameEvent::ReplaceFrame(Frame::new())),
        Err(CoreError::InvalidEventSequence)
    );
    assert_eq!(frame.pending_events(), 1);
    assert_eq!(
        frame.step(vec![FrameEvent::ReplaceFrame(Frame::new())]),
        Err(CoreError::InvalidEventSequence)
    );
    assert_eq!(frame.number(), 1);
    assert_eq!(frame.pending_events(), 1);
    assert!(frame.is_complete());

    let mut frame = frame_at(1);
    assert_eq!(frame.push_event(FrameEvent::ReplaceFrame(Frame::new())), Ok(()));
    assert_eq!(frame.push_event(input(1, 1)), Err(CoreError::InvalidEventSequence));
    assert_eq!(
        frame.push_event(FrameEvent::ReplaceFrame(Frame::new())),
        Err(CoreError::InvalidEventSequence)
    );
    assert_eq!(frame.submit(vec![]), Ok(()));
    assert_eq!(frame.pending_events(), 1);

    let mut frame = frame_at(1);
    assert_eq!(
        frame.submit(vec![input(1, 1), FrameEvent::ReplaceFrame(Frame::new())]),
        Err(CoreError::InvalidEventSequence)
    );
    assert_eq!(
        frame.submit(vec![FrameEvent::ReplaceFrame(Frame::new()), input(1, 1)]),
        Err(CoreError::InvalidEventSequence)
    );
    assert_eq!(frame.pending_events(), 0);
    assert_eq!(frame.submit(vec![input(1, 1), input(2, 1)]), Ok(()));
    assert_eq!(frame.pending_events(), 2);
}

/// A frame that is in progress, and so malformed as a replacement.
fn in_progress() -> Frame {
    let mut frame = Frame::new();
    frame.add_player(player(42, 3));
    frame.begin_step();
    assert!(!frame.is_complete());
    frame
}

/// The frame under test: tick 4, with an intent of player 1 and a mark
/// on the terrain.
fn marked() -> Frame {
    let mut frame = frame_at(3);
    frame.step(vec![input(1, 11)]).unwrap();
    frame.heightmap_phy_mut().set_z(1, 1, 9);
    frame.set_frame_profiler(FrameProfiler { total: 5, update_units: 4, handle_events: 3 });
    frame
}

#[test]
fn a_malformed_replacement_is_rejected_and_the_frame_stays() {
    let mut frame = marked();
    assert_eq!(
        frame.step(vec![FrameEvent::ReplaceFrame(in_progress())]),
        Err(CoreError::CorruptData)
    );
    assert_eq!(frame, marked());
    assert_eq!(frame.number(), 4);
    assert!(frame.is_complete());
    assert_eq!(frame.pending_events(), 0);
    assert_eq!(frame.player(pid(1)), Some(&player(1, 0)));
    assert!(frame.player(pid(42)).is_none());
    assert_eq!(frame.intent(pid(1)).unwrap().input_state.key_pressed, vec![11]);

    assert_eq!(
        frame.push_event(FrameEvent::ReplaceFrame(in_progress())),
        Err(CoreError::CorruptData)
    );
    assert_eq!(
        frame.submit(vec![FrameEvent::ReplaceFrame(in_progress())]),
        Err(CoreError::CorruptData)
    );
    assert_eq!(frame, marked());

    // the process goes on: the next step is an ordinary one
    assert_eq!(frame.step(vec![input(2, 7)]), Ok(()));
    assert_eq!(frame.number(), 5);
    assert_eq!(frame.intent(pid(2)).unwrap().input_state.key_pressed, vec![7]);
}

#[test]
fn a_malformed_replacement_among_other_events_is_an_invalid_sequence() {
    let mut frame = marked();
    assert_eq!(
        frame.step(vec![input(1, 1), FrameEvent::ReplaceFrame(in_progress())]),
        Err(CoreError::InvalidEventSequence)
    );
    assert_eq!(frame, marked());
}

#[test]
fn a_step_in_two_halves_leaves_room_for_the_world_to_move() {
    let mut frame = frame_at(0);
    frame.push_event(input(2, 6)).unwrap();
    assert!(frame.current().is_some());
    assert!(frame.is_well_formed());
    frame.begin_step();
    assert!(!frame.is_complete());
    assert!(frame.current().is_none());
    assert!(frame.is_well_formed());
    assert_eq!(frame.number(), 0);
    assert_eq!(frame.pending_events(), 0);
    assert_eq!(frame.intent(pid(2)).unwrap().input_state.key_pressed, vec![6]);
    let tree = PartTree::with_root(
        Id::from_value(1),
        Part {
            parent_to_self: Transform::identity(),
            joint: Joint::Fix,
            placed_mesh: None,
            placed_collider: None,
        },
    );
    let def = BotDef {
        id: Id::from_value(77),
        radius: Scalar { bits: 0 },
        max_life: 64,
        turn_accel: Scalar { bits: 0 },
        max_turn_rate: Scalar { bits: 0 },
        accel: Scalar { bits: 0 },
        break_accel: Scalar { bits: 0 },
        max_speed: Scalar { bits: 0 },
        part_tree: tree,
    };
    let bot = KBot::new(&def, 1, [1, 2, 3], [4, 5, 6]);
    assert_eq!(bot.life, 64);
    assert_eq!(bot.botdef_id, Id::from_value(77));
    assert_eq!(bot.team, 1);
    assert_eq!(bot.position, [1, 2, 3]);
    assert_eq!(bot.dir, [4, 5, 6]);
    assert_eq!(bot.speed, Scalar { bits: 0 });
    frame.kbots_mut().insert(bot.id.value(), bot);
    let shot = KinematicProjectile::new([1, 1, 1], [2, 2, 2], 0);
    assert_eq!((shot.position, shot.velocity, shot.birth_frame), ([1, 1, 1], [2, 2, 2], 0));
    frame.kinematic_projectiles_mut().insert(shot.id.value(), shot);
    let timings = FrameProfiler { total: 30, update_units: 20, handle_events: 10 };
    frame.finish_step(timings);
    assert!(frame.is_complete());
    assert_eq!(frame.number(), 1);
    assert_eq!(frame.frame_profiler(), timings);
    assert_eq!(frame.kbots().len(), 1);
    assert_eq!(frame.kbots().get(&bot.id.value()), Some(&bot));
    assert_eq!(frame.kinematic_projectiles().len(), 1);
    assert_eq!(frame.current().map(|f| f.number()), Some(1));
}

#[test]
fn a_height_map_is_flat_until_it_is_changed() {
    let mut map = HeightmapPhy::new(3, 2);
    assert_eq!((map.width(), map.height()), (3, 2));
    for y in 0..2 {
        for x in 0..3 {
            assert_eq!(map.z(x, y), Some(0));
        }
    }
    assert_eq!(map.z(3, 0), None);
    assert_eq!(map.z(0, 2), None);
    assert!(map.set_z(2, 1, 9));
    assert!(!map.set_z(3, 1, 9));
    assert!(!map.set_z(0, 2, 9));
    assert_eq!(map.z(2, 1), Some(9));
    assert_eq!(map.z(1, 1), Some(0));
    assert_eq!(map.z(2, 0), Some(0));
    let empty = HeightmapPhy::new(0, 5);
    assert_eq!(empty.z(0, 0), None);
}
