use viceptica::world::{
    append_selection, remove_point_light_from_model, renderables_after_removal, selection_box_rect, Duplicate, removals, Removal, SelectionAction, DragAxis, EditorSelection, InternalModels, PlayerMovementMode, Selection,
    SelectionEffect, SelectionType,
};

#[test]
fn cycle_selection_type() {
    assert_eq!(SelectionType::Movement.cycle(), SelectionType::Scaling);
    assert_eq!(SelectionType::Scaling.cycle(), SelectionType::Movement);
    assert_eq!(SelectionType::Movement.cycle().cycle(), SelectionType::Movement);
}

#[test]
fn selected_brush_and_model() {
    let mut s = EditorSelection::new();
    assert_eq!(s.get_selected_brush(), None);
    s.selected_object = Some(Selection::Brush(4));
    assert_eq!(s.get_selected_brush(), Some(4));
    assert_eq!(s.get_selected_model(), None);
    s.selected_object = Some(Selection::Model(2));
    assert_eq!(s.get_selected_model(), Some(2));
    s.selected_object = Some(Selection::Multiple(vec![Selection::Model(2)]));
    assert_eq!(s.get_selected_model(), None);
}

#[test]
fn appending_to_a_selection() {
    match append_selection(Selection::Brush(1), Selection::Model(2)) {
        Selection::Multiple(v) => {
            assert_eq!(v.len(), 2);
            assert!(matches!(v[0], Selection::Brush(1)));
            assert!(matches!(v[1], Selection::Model(2)));
        },
        _ => panic!("expected a multiple selection"),
    }
    match append_selection(Selection::Multiple(vec![Selection::Brush(1)]), Selection::Brush(3)) {
        Selection::Multiple(v) => {
            assert_eq!(v.len(), 2);
            assert!(matches!(v[1], Selection::Brush(3)));
        },
        _ => panic!("expected a multiple selection"),
    }
}

#[test]
fn internal_models_cannot_be_selected() {
    let mut internal = InternalModels::default();
    internal.internal_ids = vec![0, 1, 6];
    assert!(!internal.can_be_selected(1));
    assert!(!internal.can_be_selected(6));
    assert!(internal.can_be_selected(2));
}

#[test]
fn selecting_a_brush_again_switches_to_scaling_and_back() {
    let mut s = EditorSelection::new();
    let e = s.select_brush(3);
    assert_eq!(e, vec![SelectionEffect::SetBoxesVisible(false), SelectionEffect::MoveBoxesFar]);
    assert_eq!(s.get_selected_brush(), Some(3));
    assert_eq!(s.selection_type, SelectionType::Movement);
    let e = s.select_brush(3);
    assert_eq!(
        e,
        vec![SelectionEffect::SetArrowsVisible(false), SelectionEffect::SetBoxesVisible(true), SelectionEffect::MoveArrowsFar]
    );
    assert_eq!(s.selection_type, SelectionType::Scaling);
    let e = s.select_brush(3);
    assert_eq!(
        e,
        vec![SelectionEffect::SetArrowsVisible(true), SelectionEffect::SetBoxesVisible(false), SelectionEffect::MoveBoxesFar]
    );
    assert_eq!(s.selection_type, SelectionType::Movement);
    s.select_brush(3);
    s.select_brush(4);
    assert_eq!(s.get_selected_brush(), Some(4));
    assert_eq!(s.selection_type, SelectionType::Movement);
}

#[test]
fn selecting_a_model_selects_its_light() {
    let mut s = EditorSelection::new();
    let e = s.select_model(7, Some(2));
    assert_eq!(e, vec![SelectionEffect::SetBoxesVisible(false), SelectionEffect::MoveBoxesFar]);
    assert_eq!(s.get_selected_model(), Some(7));
    assert_eq!(s.light_selected, Some(2));
    assert_eq!(s.open_light_ui, Some(2));
    let e = s.select_model(7, None);
    assert!(e.is_empty());
    assert_eq!(s.light_selected, None);
    assert_eq!(s.open_light_ui, Some(2));
}

#[test]
fn shift_appends_to_the_selection() {
    let mut s = EditorSelection::new();
    s.select_or_append_model(1, None);
    assert_eq!(s.get_selected_model(), Some(1));
    let e = s.select_or_append_model(2, Some(9));
    assert_eq!(e, vec![SelectionEffect::SetArrowsVisible(true)]);
    assert_eq!(s.light_selected, None);
    let e = s.select_or_append_brush(5);
    assert!(e.is_empty());
    match &s.selected_object {
        Some(Selection::Multiple(v)) => {
            assert_eq!(v.len(), 3);
            assert!(matches!(v[0], Selection::Model(1)));
            assert!(matches!(v[1], Selection::Model(2)));
            assert!(matches!(v[2], Selection::Brush(5)));
        },
        _ => panic!("expected a multiple selection"),
    }
}

#[test]
fn deselecting_hides_everything() {
    let mut s = EditorSelection::new();
    s.select_model(1, Some(0));
    s.selection_box_visible = true;
    let e = s.deselect();
    assert_eq!(
        e,
        vec![
            SelectionEffect::SetArrowsVisible(false),
            SelectionEffect::SetBoxesVisible(false),
            SelectionEffect::MoveArrowsFar,
            SelectionEffect::MoveBoxesFar,
        ]
    );
    assert!(s.selected_object.is_none());
    assert_eq!(s.light_selected, None);
    assert!(!s.selection_box_visible);
    s.select_brush(1);
    assert_eq!(s.air_clicked().len(), 4);
    assert!(s.selected_object.is_none());
}

#[test]
fn releasing_the_mouse_selects_brushes_and_models() {
    let mut internal = InternalModels::default();
    internal.brushes = 3;
    internal.internal_ids = vec![3, 4];
    let mut s = EditorSelection::new();
    let e = s.model_released(&internal, true, Some(3), Some(8), false, None);
    assert_eq!(
        e,
        vec![SelectionEffect::SetBoxesVisible(false), SelectionEffect::MoveBoxesFar, SelectionEffect::SetArrowsVisible(true)]
    );
    assert_eq!(s.get_selected_brush(), Some(8));
    let e = s.model_released(&internal, true, Some(9), None, false, None);
    assert_eq!(
        e,
        vec![SelectionEffect::SetBoxesVisible(false), SelectionEffect::MoveBoxesFar, SelectionEffect::SetArrowsVisible(true)]
    );
    assert_eq!(s.get_selected_model(), Some(9));
    let e = s.model_released(&internal, true, Some(4), None, false, None);
    assert!(e.is_empty());
    assert_eq!(s.get_selected_model(), Some(9));
    let e = s.model_released(&internal, false, Some(10), None, false, None);
    assert!(e.is_empty());
    assert_eq!(s.get_selected_model(), Some(9));
}

#[test]
fn drag_handles() {
    let mut internal = InternalModels::default();
    internal.arrow_px = 1;
    internal.arrow_nx = 2;
    internal.arrow_py = 3;
    internal.arrow_ny = 4;
    internal.arrow_pz = 5;
    internal.arrow_nz = 6;
    internal.brushes = 7;
    internal.debug_arrow = 8;
    internal.box_px = 9;
    internal.box_nx = 10;
    internal.box_py = 11;
    internal.box_ny = 12;
    internal.box_pz = 13;
    internal.box_nz = 14;
    assert_eq!(internal.drag_handle(1), (Some(DragAxis::X), Some(true)));
    assert_eq!(internal.drag_handle(4), (Some(DragAxis::Y), Some(false)));
    assert_eq!(internal.drag_handle(13), (Some(DragAxis::Z), Some(true)));
    assert_eq!(internal.drag_handle(10), (Some(DragAxis::X), Some(false)));
    assert_eq!(internal.drag_handle(7), (None, None));
}

#[test]
fn removing_a_light_renumbers_the_later_ones() {
    let mut lights = vec![3, 0, 5, 1];
    assert!(remove_point_light_from_model(&mut lights, 1));
    assert_eq!(lights, vec![2, 0, 4]);
    let mut lights = vec![5, 2, 7];
    assert!(remove_point_light_from_model(&mut lights, 2));
    assert_eq!(lights, vec![4, 6]);
    let mut lights = vec![1, 3, 1];
    assert!(remove_point_light_from_model(&mut lights, 1));
    assert_eq!(lights, vec![2]);
    let mut lights = vec![2, 4];
    assert!(!remove_point_light_from_model(&mut lights, 3));
    assert_eq!(lights, vec![2, 3]);
}

#[test]
fn movement_modes_compare() {
    assert_ne!(PlayerMovementMode::FollowCamera, PlayerMovementMode::FirstPerson);
}

#[test]
fn deleting_a_selection_removes_each_part() {
    assert_eq!(removals(&Selection::Brush(2)), vec![Removal::Brush(2)]);
    assert_eq!(removals(&Selection::Model(5)), vec![Removal::Model(5)]);
    assert_eq!(
        removals(&Selection::Multiple(vec![Selection::Model(1), Selection::Brush(4)])),
        vec![Removal::Model(1), Removal::Brush(4)]
    );
    assert!(removals(&Selection::Multiple(vec![])).is_empty());
}

#[test]
fn each_selection_gets_its_adornment() {
    let mut s = EditorSelection::new();
    assert_eq!(s.selection_action(true), SelectionAction::Nothing);
    s.selected_object = Some(Selection::Brush(3));
    assert_eq!(s.selection_action(true), SelectionAction::Retexture(3));
    assert_eq!(s.selection_action(false), SelectionAction::ArrowsOnBrush(3));
    s.selection_type = SelectionType::Scaling;
    assert_eq!(s.selection_action(false), SelectionAction::BoxesOnBrush(3));
    s.selected_object = Some(Selection::Model(1));
    assert_eq!(s.selection_action(true), SelectionAction::Nothing);
    s.selection_type = SelectionType::Movement;
    assert_eq!(s.selection_action(true), SelectionAction::ArrowsOnModel(1));
    s.selected_object = Some(Selection::Multiple(vec![Selection::Model(1)]));
    assert_eq!(s.selection_action(false), SelectionAction::ArrowsOnMultiple);
}

fn selected_items(s: &EditorSelection) -> Vec<String> {
    match &s.selected_object {
        Some(Selection::Multiple(v)) => v.iter().map(|i| format!("{:?}", i)).collect(),
        Some(single) => vec![format!("single {:?}", single)],
        None => Vec::new(),
    }
}

#[test]
fn selection_box_needs_more_than_32_pixels_each_way() {
    assert_eq!(selection_box_rect((10, 10), (50, 60)), Some((10, 10, 40, 50)));
    assert_eq!(selection_box_rect((50, 60), (10, 10)), Some((10, 10, 40, 50)));
    assert_eq!(selection_box_rect((0, 0), (33, -33)), Some((0, -33, 33, 33)));
    assert_eq!(selection_box_rect((0, 0), (32, 100)), None);
    assert_eq!(selection_box_rect((0, 0), (100, 32)), None);
    assert_eq!(selection_box_rect((5, 5), (5, 5)), None);
}

#[test]
fn empty_box_changes_nothing() {
    let mut s = EditorSelection::new();
    s.select_brush(2);
    let e = s.box_released(&vec![], &vec![]);
    assert!(e.is_empty());
    assert_eq!(selected_items(&s), vec!["single Brush(2)"]);
}

#[test]
fn box_over_one_model_selects_it_and_shows_the_arrows() {
    let mut s = EditorSelection::new();
    let e = s.box_released(&vec![(4, Some(1))], &vec![]);
    assert_eq!(
        e,
        vec![SelectionEffect::SetBoxesVisible(false), SelectionEffect::MoveBoxesFar, SelectionEffect::SetArrowsVisible(true)]
    );
    assert_eq!(selected_items(&s), vec!["single Model(4)"]);
    assert_eq!(s.light_selected, Some(1));
    assert_eq!(s.open_light_ui, Some(1));
}

#[test]
fn box_over_one_model_and_brushes_adds_the_brushes() {
    let mut s = EditorSelection::new();
    let e = s.box_released(&vec![(4, None)], &vec![7, 8]);
    assert_eq!(
        e,
        vec![SelectionEffect::SetBoxesVisible(false), SelectionEffect::MoveBoxesFar, SelectionEffect::SetArrowsVisible(true)]
    );
    assert_eq!(selected_items(&s), vec!["Model(4)", "Brush(7)", "Brush(8)"]);
    assert_eq!(s.light_selected, None);
}

#[test]
fn box_over_several_models_selects_them_together() {
    let mut s = EditorSelection::new();
    s.select_brush(9);
    s.select_brush(9);
    assert_eq!(s.selection_type, SelectionType::Scaling);
    let e = s.box_released(&vec![(1, Some(3)), (2, None), (5, None)], &vec![6]);
    assert_eq!(
        e,
        vec![
            SelectionEffect::SetArrowsVisible(false),
            SelectionEffect::SetBoxesVisible(false),
            SelectionEffect::MoveArrowsFar,
            SelectionEffect::MoveBoxesFar,
            SelectionEffect::SetBoxesVisible(false),
            SelectionEffect::MoveBoxesFar,
            SelectionEffect::SetArrowsVisible(true),
            SelectionEffect::SetArrowsVisible(true),
        ]
    );
    assert_eq!(selected_items(&s), vec!["Model(1)", "Model(2)", "Model(5)", "Brush(6)"]);
    assert_eq!(s.selection_type, SelectionType::Movement);
    assert_eq!(s.light_selected, None);
    assert_eq!(s.open_light_ui, Some(3));
    assert!(!s.selection_box_visible);
}

#[test]
fn box_over_one_brush_shows_the_arrows_first() {
    let mut s = EditorSelection::new();
    let e = s.box_released(&vec![], &vec![3]);
    assert_eq!(
        e,
        vec![SelectionEffect::SetArrowsVisible(true), SelectionEffect::SetBoxesVisible(false), SelectionEffect::MoveBoxesFar]
    );
    assert_eq!(selected_items(&s), vec!["single Brush(3)"]);
}

#[test]
fn box_over_several_brushes_selects_them_together() {
    let mut s = EditorSelection::new();
    s.select_model(1, None);
    let e = s.box_released(&vec![], &vec![3, 4]);
    assert_eq!(
        e,
        vec![
            SelectionEffect::SetArrowsVisible(false),
            SelectionEffect::SetBoxesVisible(false),
            SelectionEffect::MoveArrowsFar,
            SelectionEffect::MoveBoxesFar,
            SelectionEffect::SetBoxesVisible(false),
            SelectionEffect::MoveBoxesFar,
        ]
    );
    assert_eq!(selected_items(&s), vec!["Brush(3)", "Brush(4)"]);
}

#[test]
fn duplicating_a_brush_selects_the_copy_then_keeps_the_brush() {
    let mut s = EditorSelection::new();
    s.select_brush(2);
    s.select_brush(2);
    assert_eq!(s.selection_type, SelectionType::Scaling);
    let e = s.duplicated(&vec![Duplicate::Brush(9)]);
    assert_eq!(e, vec![SelectionEffect::SetBoxesVisible(false), SelectionEffect::MoveBoxesFar]);
    assert_eq!(selected_items(&s), vec!["single Brush(2)"]);
    assert_eq!(s.selection_type, SelectionType::Movement);
}

#[test]
fn duplicating_a_model_selects_the_light_of_its_copy() {
    let mut s = EditorSelection::new();
    s.select_model(1, None);
    let e = s.duplicated(&vec![Duplicate::Model(5, Some(7))]);
    assert_eq!(e, vec![SelectionEffect::SetBoxesVisible(false), SelectionEffect::MoveBoxesFar]);
    assert_eq!(selected_items(&s), vec!["single Model(1)"]);
    assert_eq!(s.light_selected, Some(7));
    assert_eq!(s.open_light_ui, Some(7));
}

#[test]
fn duplicating_several_items_shows_the_arrows_for_each_copy() {
    let mut s = EditorSelection::new();
    s.box_released(&vec![], &vec![1, 2]);
    s.selection_box_visible = true;
    let e = s.duplicated(&vec![Duplicate::Brush(3), Duplicate::Model(4, None), Duplicate::Brush(5)]);
    assert_eq!(
        e,
        vec![
            SelectionEffect::SetArrowsVisible(false),
            SelectionEffect::SetBoxesVisible(false),
            SelectionEffect::MoveArrowsFar,
            SelectionEffect::MoveBoxesFar,
            SelectionEffect::SetBoxesVisible(false),
            SelectionEffect::MoveBoxesFar,
            SelectionEffect::SetArrowsVisible(true),
            SelectionEffect::SetArrowsVisible(true),
            SelectionEffect::SetArrowsVisible(true),
            SelectionEffect::SetArrowsVisible(true),
        ]
    );
    assert_eq!(selected_items(&s), vec!["Brush(1)", "Brush(2)"]);
    assert_eq!(s.light_selected, None);
    assert!(!s.selection_box_visible);
}

#[test]
fn duplicating_an_empty_selection_of_several_does_nothing() {
    let mut s = EditorSelection::new();
    s.selected_object = Some(Selection::Multiple(vec![]));
    s.light_selected = Some(2);
    let e = s.duplicated(&vec![]);
    assert!(e.is_empty());
    assert_eq!(s.light_selected, Some(2));
    assert!(selected_items(&s).is_empty());
}

#[test]
fn collider_references_follow_a_removed_renderable() {
    let mut refs = vec![Some(0), Some(4), None, Some(2), Some(3)];
    renderables_after_removal(&mut refs, 2);
    assert_eq!(refs, vec![Some(0), Some(3), None, Some(2), Some(2)]);
}
