use viceptica::collision::{PhysicalScene, RaycastParameters};

#[test]
fn raycast_parameters_builders() {
    let p = RaycastParameters::new();
    assert!(p.ignore.is_empty());
    assert!(!p.respect_solid);
    assert!(!p.select_foreground);
    let p = RaycastParameters::new().ignore(vec![3, 4]).select_foreground();
    assert_eq!(p.ignore, vec![3, 4]);
    assert!(p.select_foreground);
    assert!(!p.respect_solid);
    let p = p.respect_solid();
    assert!(p.respect_solid);
    assert_eq!(p.ignore, vec![3, 4]);
}

#[test]
fn colliders_fill_free_slots_first() {
    let mut scene: PhysicalScene<u32> = PhysicalScene::new();
    assert_eq!(scene.add_collider(10), 0);
    assert_eq!(scene.add_collider(20), 1);
    assert_eq!(scene.add_collider(30), 2);
    assert!(scene.remove_collider(1).is_ok());
    assert_eq!(scene.colliders, vec![Some(10), None, Some(30)]);
    assert_eq!(scene.add_collider(40), 1);
    assert_eq!(scene.colliders, vec![Some(10), Some(40), Some(30)]);
    assert_eq!(scene.add_collider(50), 3);
}

#[test]
fn removing_a_missing_slot_is_an_error() {
    let mut scene: PhysicalScene<u32> = PhysicalScene::new();
    scene.add_collider(1);
    assert_eq!(scene.remove_collider(5), Err("Index out of bounds".to_string()));
    assert_eq!(scene.colliders, vec![Some(1)]);
}

#[test]
fn remove_then_add_reuses_the_earliest_slot() {
    let mut scene: PhysicalScene<u32> = PhysicalScene::new();
    for i in 0..5 {
        scene.add_collider(i);
    }
    scene.remove_collider(3).unwrap();
    scene.remove_collider(1).unwrap();
    assert_eq!(scene.add_collider(9), 1);
    assert_eq!(scene.add_collider(8), 3);
}

#[test]
fn raycast_admits_colliders() {
    let p = RaycastParameters::new();
    assert!(p.admits(0, false, false, false));
    assert!(!p.admits(0, false, false, true));
    assert!(p.admits(0, false, true, true));
    let p = RaycastParameters::new().ignore(vec![3, 4]).respect_solid();
    assert!(!p.admits(3, true, true, false));
    assert!(!p.admits(4, true, true, true));
    assert!(p.admits(5, true, false, false));
    assert!(!p.admits(5, false, false, false));
    assert!(!p.admits(5, true, false, true));
}
