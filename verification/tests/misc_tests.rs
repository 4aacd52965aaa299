use viceptica::collision::{free_slot, PhysicalScene, RaycastParameters};
use viceptica::component::{trigger_phase, trigger_problem, DoorPlacement, DoorState, DoorUpdate, TriggerPhase, TriggerProblem};
use viceptica::render::{CameraControlScheme, CursorGrab};
use viceptica::save::{cuboids_of, ModelCollider, ModelColliderData};
use viceptica::world::{coyote_jump, drag_ends, frame_frozen, ground_control, DragAxis, PlayerMovementMode};

#[test]
fn switching_to_the_editor_and_back() {
    let s = CameraControlScheme::FirstPerson(true).toggled();
    assert_eq!(s.scheme, CameraControlScheme::Editor);
    assert_eq!(s.cursor_grab, CursorGrab::Free);
    assert!(s.cursor_visible);
    assert_eq!(s.movement, PlayerMovementMode::FollowCamera);
    assert!(s.editor_active && !s.game_logic && !s.play_mode && !s.deselect);
    let s = s.scheme.toggled();
    assert_eq!(s.scheme, CameraControlScheme::FirstPerson(true));
    assert_eq!(s.cursor_grab, CursorGrab::Confined);
    assert!(!s.cursor_visible);
    assert_eq!(s.movement, PlayerMovementMode::FirstPerson);
    assert!(!s.editor_active && s.game_logic && s.play_mode && s.deselect);
}

#[test]
fn escape_releases_and_a_click_locks_the_cursor() {
    let mut scheme = CameraControlScheme::FirstPerson(true);
    assert!(scheme.on_escape());
    assert_eq!(scheme, CameraControlScheme::FirstPerson(false));
    assert!(!scheme.on_escape());
    assert!(scheme.on_mouse_pressed());
    assert_eq!(scheme, CameraControlScheme::FirstPerson(true));
    assert!(!scheme.on_mouse_pressed());
    let mut editor = CameraControlScheme::Editor;
    assert!(!editor.on_escape());
    assert!(!editor.on_mouse_pressed());
    assert!(editor.right_button_drags_view(true));
    assert!(!editor.right_button_drags_view(false));
    assert!(!scheme.right_button_drags_view(true));
}

#[test]
fn a_door_opens_near_the_player_and_closes_away() {
    let mut door = DoorState::new(2);
    assert_eq!(door.update(true, true), DoorUpdate { record_origin: true, placement: DoorPlacement::Raised(1) });
    assert_eq!(door.update(true, true), DoorUpdate { record_origin: false, placement: DoorPlacement::Raised(2) });
    assert_eq!(door.update(true, true), DoorUpdate { record_origin: false, placement: DoorPlacement::Raised(2) });
    assert_eq!(door.open_progress, 2);
    assert_eq!(door.update(true, false), DoorUpdate { record_origin: false, placement: DoorPlacement::Raised(1) });
    assert_eq!(door.update(true, false), DoorUpdate { record_origin: false, placement: DoorPlacement::Keep });
    assert!(door.opened);
    assert_eq!(door.update(true, false), DoorUpdate { record_origin: false, placement: DoorPlacement::Rest });
    assert!(!door.opened);
    assert_eq!(door.update(true, false), DoorUpdate { record_origin: true, placement: DoorPlacement::Rest });
}

#[test]
fn a_door_rests_when_the_game_stops() {
    let mut door = DoorState::new(5);
    door.update(true, true);
    door.update(true, true);
    assert_eq!(door.update(false, true), DoorUpdate { record_origin: false, placement: DoorPlacement::Rest });
    assert_eq!(door, DoorState { open_time: 5, open_progress: 0, opened: false });
    assert_eq!(door.update(false, true), DoorUpdate { record_origin: true, placement: DoorPlacement::Keep });
}

#[test]
fn trigger_phases() {
    let mut within = false;
    assert_eq!(trigger_phase(&mut within, false), TriggerPhase::Outside);
    assert_eq!(trigger_phase(&mut within, true), TriggerPhase::Enter);
    assert!(within);
    assert_eq!(trigger_phase(&mut within, true), TriggerPhase::Inside);
    assert_eq!(trigger_phase(&mut within, false), TriggerPhase::Exit);
    assert!(!within);
}

#[test]
fn colliders_are_stored_flat() {
    let nested = ModelCollider::Multiple(vec![
        ModelCollider::Cuboid(1u32),
        ModelCollider::Multiple(vec![ModelCollider::Cuboid(2), ModelCollider::Cuboid(3)]),
    ]);
    assert_eq!(cuboids_of(&nested), vec![1, 2, 3]);
    match ModelColliderData::from_model_collider(&nested) {
        ModelColliderData::Multiple { colliders } => assert_eq!(colliders, vec![1, 2, 3]),
        _ => panic!("expected several cuboids"),
    }
    match ModelColliderData::from_model_collider(&ModelCollider::Multiple(vec![ModelCollider::Cuboid(7u32)])) {
        ModelColliderData::Singular { collider } => assert_eq!(collider, 7),
        _ => panic!("expected one cuboid"),
    }
    assert!(matches!(
        ModelColliderData::from_model_collider(&ModelCollider::<u32>::Multiple(vec![])),
        ModelColliderData::Empty
    ));
}

#[test]
fn stored_colliders_read_back() {
    let data = ModelColliderData::Multiple { colliders: vec![4u32, 5] };
    match data.into_model_collider() {
        Some(m) => assert_eq!(cuboids_of(&m), vec![4, 5]),
        None => panic!("expected colliders"),
    }
    match (ModelColliderData::Singular { collider: 9u32 }).into_model_collider() {
        Some(ModelCollider::Cuboid(c)) => assert_eq!(c, 9),
        _ => panic!("expected a cuboid"),
    }
    assert!(ModelColliderData::<u32>::Empty.into_model_collider().is_none());
}

#[test]
fn free_slots_are_reused() {
    assert_eq!(free_slot(&vec![Some(1), None, Some(3)]), 1);
    assert_eq!(free_slot(&vec![Some(1), Some(2)]), 2);
    assert_eq!(free_slot::<u8>(&vec![]), 0);
    let mut scene = PhysicalScene::new();
    assert_eq!(scene.add_collider('a'), 0);
    assert_eq!(scene.add_collider('b'), 1);
    assert!(scene.remove_collider(0).is_ok());
    assert_eq!(scene.add_collider('c'), 0);
    let _ = RaycastParameters::new();
}

#[test]
fn colliders_added_to_a_model_accumulate() {
    let one = viceptica::save::insert_collider(None, ModelCollider::Cuboid(1u32));
    assert_eq!(cuboids_of(&one), vec![1]);
    assert!(matches!(one, ModelCollider::Cuboid(1)));
    let two = viceptica::save::insert_collider(Some(one), ModelCollider::Cuboid(2));
    assert_eq!(cuboids_of(&two), vec![1, 2]);
    let three = viceptica::save::insert_collider(Some(two), ModelCollider::Cuboid(3));
    match &three {
        ModelCollider::Multiple(v) => assert_eq!(v.len(), 3),
        _ => panic!("expected a list of colliders"),
    }
    assert_eq!(cuboids_of(&three.copied()), vec![1, 2, 3]);
}

#[test]
fn trigger_needs_a_single_brush() {
    assert_eq!(trigger_problem(1, true), None);
    assert_eq!(trigger_problem(1, false), Some(TriggerProblem::NotBrush));
    assert_eq!(trigger_problem(0, false), Some(TriggerProblem::NotSingle));
    assert_eq!(trigger_problem(2, true), Some(TriggerProblem::NotSingle));
}

#[test]
fn frozen_world_skips_that_many_frames() {
    let mut freeze = 2;
    assert!(frame_frozen(&mut freeze));
    assert_eq!(freeze, 1);
    assert!(frame_frozen(&mut freeze));
    assert_eq!(freeze, 0);
    assert!(!frame_frozen(&mut freeze));
    assert!(!frame_frozen(&mut freeze));
    assert_eq!(freeze, 0);
}

#[test]
fn jumping_within_coyote_time() {
    let mut coyote = 2;
    assert!(!coyote_jump(&mut coyote, false));
    assert_eq!(coyote, 1);
    assert!(coyote_jump(&mut coyote, true));
    assert_eq!(coyote, 0);
    assert!(!coyote_jump(&mut coyote, true));
    assert_eq!(coyote, 0);
    assert!(ground_control(1, true));
    assert!(!ground_control(0, true));
    assert!(!ground_control(3, false));
}

#[test]
fn drags_end_when_the_button_is_let_go() {
    assert!(drag_ends(Some(DragAxis::Y), true));
    assert!(!drag_ends(Some(DragAxis::Y), false));
    assert!(!drag_ends(None, true));
}
