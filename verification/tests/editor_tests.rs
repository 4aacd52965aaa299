use viceptica::ui::implement::{
    material_cells, EditorModeUI, EditorWindow, EditorWindowType, InteractionChoice, PlayModeUI, SliderManager,
};
use viceptica::ui::{FrameInteraction, SliderInteraction, UI};

#[test]
fn window_titles() {
    assert_eq!(EditorWindowType::Test.title(), "Test");
    assert_eq!(EditorWindowType::MaterialPicker.title(), "Materials");
    assert_eq!(EditorWindowType::LightEditor.title(), "Light Properties");
}

#[test]
fn the_editor_starts_with_the_light_editor() {
    let editor = EditorModeUI::new();
    assert_eq!(editor.windows.len(), 1);
    assert_eq!(editor.windows[0].window_type, EditorWindowType::LightEditor);
    assert_eq!(editor.windows[0].position, (100, 100));
    assert_eq!(editor.windows[0].scale, (400, 400));
    assert_eq!(editor.highest_focus, 0);
    let _ = PlayModeUI::new();
}

#[test]
fn toggling_opens_then_closes_a_window() {
    let mut editor = EditorModeUI::new();
    assert_eq!(editor.toggle_window(EditorWindowType::MaterialPicker), None);
    assert_eq!(editor.windows.len(), 2);
    assert_eq!(editor.windows[1].window_type, EditorWindowType::MaterialPicker);
    assert_eq!(editor.windows[1].focus, 1);
    assert_eq!(editor.highest_focus, 1);
    assert_eq!(editor.toggle_window(EditorWindowType::MaterialPicker), Some(1));
    assert_eq!(editor.windows.len(), 1);
    assert_eq!(editor.windows[0].window_type, EditorWindowType::LightEditor);
    assert_eq!(editor.toggle_window(EditorWindowType::LightEditor), Some(0));
    assert!(editor.windows.is_empty());
}

#[test]
fn focusing_brings_a_window_to_the_front() {
    let mut editor = EditorModeUI::new();
    editor.add_window(EditorWindow::new(EditorWindowType::Test, (0, 0), (100, 100)));
    assert_eq!(editor.windows[1].focus, 1);
    editor.focus_window(0);
    assert_eq!(editor.windows[0].focus, 2);
    assert_eq!(editor.highest_focus, 2);
}

#[test]
fn the_front_window_wins_the_interaction() {
    let mut editor = EditorModeUI::new();
    editor.add_window(EditorWindow::new(EditorWindowType::Test, (300, 300), (100, 100)));
    let mut choice = InteractionChoice::new();
    editor.offer_interaction(&mut choice, 1, FrameInteraction::DragBegin);
    assert_eq!(choice.chosen, Some((1, FrameInteraction::DragBegin)));
    assert_eq!(editor.windows[1].drag_origin, (300, 300));
    editor.offer_interaction(&mut choice, 0, FrameInteraction::Close);
    assert_eq!(choice.chosen, Some((1, FrameInteraction::DragBegin)));
    assert_eq!(choice.highest_focus, 1);
    editor.apply_interaction(choice.chosen);
    assert!(editor.windows[1].dragging);
    assert_eq!(editor.windows[1].focus, 2);
}

#[test]
fn equal_focus_lets_the_later_window_win() {
    let mut editor = EditorModeUI::new();
    editor.windows.push(EditorWindow::new(EditorWindowType::Test, (0, 0), (100, 100)));
    let mut choice = InteractionChoice::new();
    editor.offer_interaction(&mut choice, 0, FrameInteraction::ResizeBegin);
    editor.offer_interaction(&mut choice, 1, FrameInteraction::Close);
    assert_eq!(choice.chosen, Some((1, FrameInteraction::Close)));
    assert_eq!(editor.windows[0].scale_origin, (400, 400));
    editor.apply_interaction(choice.chosen);
    assert_eq!(editor.windows.len(), 1);
    assert_eq!(editor.highest_focus, 0);
}

#[test]
fn resize_and_contents_click() {
    let mut editor = EditorModeUI::new();
    editor.apply_interaction(Some((0, FrameInteraction::ResizeBegin)));
    assert!(editor.windows[0].scaling);
    assert_eq!(editor.windows[0].focus, 1);
    editor.apply_interaction(Some((0, FrameInteraction::OtherContentsClicked)));
    assert_eq!(editor.windows[0].focus, 2);
    editor.apply_interaction(Some((0, FrameInteraction::Scroll)));
    assert_eq!(editor.windows[0].focus, 2);
    editor.apply_interaction(None);
    assert_eq!(editor.highest_focus, 2);
}

#[test]
fn dragging_and_resizing_follow_the_mouse() {
    let mut w = EditorWindow::new(EditorWindowType::Test, (100, 100), (400, 400));
    w.drag_origin = (100, 100);
    w.dragging = true;
    w.follow_mouse(false, (5, -3));
    assert_eq!(w.position, (105, 97));
    w.follow_mouse(true, (50, 50));
    assert!(!w.dragging);
    assert_eq!(w.position, (105, 97));

    w.scale_origin = (400, 400);
    w.scaling = true;
    w.follow_mouse(false, (-380, 10));
    assert_eq!(w.scale, (48, 410));
    w.follow_mouse(true, (0, 0));
    assert!(!w.scaling);
}

#[test]
fn material_cells_fill_rows() {
    assert_eq!(material_cells(250, 5), Some(vec![(0, 16), (100, 16), (0, 116), (100, 116), (0, 216)]));
    assert_eq!(material_cells(50, 2), Some(vec![(0, 16), (0, 116)]));
    assert_eq!(material_cells(400, 0), Some(vec![]));
}

#[test]
fn slider_manager_keeps_levels() {
    let mut m = SliderManager::new();
    m.add_slider(SliderInteraction { clicked: false, progress: 10 });
    assert_eq!(m.sliders.len(), 1);
    assert_eq!(m.slider_levels, vec![0]);
    assert_eq!(m.active_slider, None);
    m.end_of_loop(false);
    assert_eq!(m.slider_levels, vec![0]);
    m.reset();
    assert_eq!(m.current_slider, 0);
    m.add_slider(SliderInteraction { clicked: true, progress: 30 });
    assert_eq!(m.active_slider, Some(0));
    m.end_of_loop(false);
    assert_eq!(m.slider_levels, vec![30]);
    m.end_of_loop(true);
    assert_eq!(m.active_slider, None);
}

#[test]
fn window_sliders_report_their_kept_level() {
    let mut ui = UI::new();
    let mut w = EditorWindow::new(EditorWindowType::LightEditor, (100, 100), (400, 400));
    assert_eq!(w.vertical_slider(&mut ui, (500, 500), false, 10, 50, 200), 200);
    w.sliders.slider_levels[0] = 20;
    w.sliders.reset();
    assert_eq!(w.vertical_slider(&mut ui, (500, 500), false, 10, 50, 200), 180);
    w.sliders.reset();
    assert_eq!(w.slider(&mut ui, (500, 500), false, 10, 50, 200), 20);
}
