use viceptica::ui::draw::{DrawCall, Glyph, FONT_CHARS};
use viceptica::ui::{ElementType, FrameInteraction, FrameType, SliderInteraction, TextLabel, UINode, UI};

#[test]
fn frame_becomes_current_until_pop() {
    let mut ui = UI::new();
    ui.frame(100, 50, 200, 100);
    assert_eq!(ui.nodes.len(), 2);
    assert_eq!(ui.current_node, 1);
    assert_eq!(ui.current_global_origin, (100, 50));
    assert_eq!(ui.nodes[0].children, vec![1]);
    assert_eq!(ui.nodes[1].clip, (1, 17, 198, 82));
    ui.pop();
    assert_eq!(ui.current_node, 0);
    assert_eq!(ui.current_global_origin, (0, 0));
}

#[test]
fn begin_starts_a_fresh_tree() {
    let mut ui = UI::new();
    ui.frame(10, 10, 50, 50);
    ui.text(0, 0, "hello");
    ui.begin();
    assert_eq!(ui.nodes.len(), 1);
    assert_eq!(ui.current_node, 0);
    assert!(ui.parent_nodes.is_empty());
    assert!(matches!(ui.nodes[0].draw, ElementType::Blank));
}

#[test]
fn interactable_frame_reports_the_close_corner() {
    let mut ui = UI::new();
    let r = ui.interactable_frame((290, 105), true, false, "Title", 100, 100, 200, 100);
    assert_eq!(r, Some(FrameInteraction::Close));
    assert!(ui.mouse_captured);
    match &ui.nodes[1].draw {
        ElementType::TitledNineCell(cell, title) => {
            assert_eq!(cell.frame_type, FrameType::Interactable);
            assert_eq!(title, "Title");
        },
        _ => panic!("expected a titled frame"),
    }
}

#[test]
fn interactable_frame_reports_drag_resize_and_contents() {
    let mut ui = UI::new();
    assert_eq!(ui.interactable_frame((150, 105), true, false, "T", 100, 100, 200, 100), Some(FrameInteraction::DragBegin));
    ui.pop();
    assert_eq!(ui.interactable_frame((295, 195), true, false, "T", 100, 100, 200, 100), Some(FrameInteraction::ResizeBegin));
    ui.pop();
    assert_eq!(ui.interactable_frame((150, 150), true, false, "T", 100, 100, 200, 100), Some(FrameInteraction::OtherContentsClicked));
    ui.pop();
    assert_eq!(ui.interactable_frame((150, 150), false, true, "T", 100, 100, 200, 100), Some(FrameInteraction::Scroll));
    ui.pop();
    assert_eq!(ui.interactable_frame((150, 150), false, false, "T", 100, 100, 200, 100), None);
    ui.pop();
    assert_eq!(ui.interactable_frame((500, 500), true, false, "T", 100, 100, 200, 100), None);
}

#[test]
fn image_button_is_pressed_when_clicked_over_it() {
    let mut ui = UI::new();
    assert!(ui.image_button((10, 210), true, 0, 200, 32, 32, (0, 0), (32, 32), "ui_buttons"));
    assert!(ui.mouse_captured);
    let mut ui = UI::new();
    assert!(!ui.image_button((10, 210), false, 0, 200, 32, 32, (0, 0), (32, 32), "ui_buttons"));
    assert!(ui.mouse_captured);
    let mut ui = UI::new();
    assert!(!ui.image_button((100, 210), true, 0, 200, 32, 32, (0, 0), (32, 32), "ui_buttons"));
    assert!(!ui.mouse_captured);
}

#[test]
fn sliders_read_the_mouse() {
    let mut ui = UI::new();
    let r = ui.slider((60, 100), true, 10, 100, 100, 7);
    assert_eq!(r, SliderInteraction { clicked: true, progress: 50 });
    let r = ui.slider((500, 100), true, 10, 100, 100, 7);
    assert_eq!(r, SliderInteraction { clicked: false, progress: 100 });
    let r = ui.vertical_slider((100, 200), true, 100, 10, 100, 0);
    assert_eq!(r, SliderInteraction { clicked: false, progress: 100 });
    let r = ui.vertical_slider((100, 5), true, 100, 10, 100, 0);
    assert_eq!(r, SliderInteraction { clicked: false, progress: 0 });
}

#[test]
fn intersection_of_rectangles() {
    assert_eq!(UI::intersect((0, 0, 10, 10), (5, 5, 10, 10)), Some((5, 5, 5, 5)));
    assert_eq!(UI::intersect((5, 5, 10, 10), (0, 0, 10, 10)), Some((5, 5, 5, 5)));
    assert_eq!(UI::intersect((0, 0, 5, 5), (5, 0, 5, 5)), None);
    assert_eq!(UI::intersect((0, 0, 100, 100), (10, 20, 30, 40)), Some((10, 20, 30, 40)));
}

#[test]
fn draw_calls_follow_the_tree() {
    let mut ui = UI::new();
    ui.frame(10, 20, 100, 50);
    ui.text(5, 5, "hi");
    ui.pop();
    let calls = ui.draw_calls().unwrap();
    assert_eq!(
        calls,
        vec![
            DrawCall { node: 0, offset: (0, 0), clip: (0, 0, 1280, 960) },
            DrawCall { node: 1, offset: (10, 20), clip: (0, 0, 1280, 960) },
            DrawCall { node: 2, offset: (15, 25), clip: (11, 37, 98, 32) },
        ]
    );
}

#[test]
fn draw_calls_skip_children_outside_the_clip() {
    let mut ui = UI::new();
    ui.frame(2000, 2000, 100, 50);
    ui.text(0, 0, "x");
    ui.pop();
    let calls = ui.draw_calls().unwrap();
    assert_eq!(
        calls,
        vec![
            DrawCall { node: 0, offset: (0, 0), clip: (0, 0, 1280, 960) },
            DrawCall { node: 1, offset: (2000, 2000), clip: (0, 0, 1280, 960) },
        ]
    );
}

#[test]
fn draw_calls_order_children_by_focus() {
    let mut ui = UI::new();
    ui.text(0, 0, "a");
    ui.set_focus(5);
    ui.text(0, 0, "b");
    let calls = ui.draw_calls().unwrap();
    let order: Vec<usize> = calls.iter().map(|c| c.node).collect();
    assert_eq!(order, vec![0, 2, 1]);
    assert_eq!(ui.nodes[0].children, vec![2, 1]);
}

#[test]
fn sort_all_is_stable() {
    let mut nodes = vec![UINode::root(), UINode::root(), UINode::root(), UINode::root()];
    nodes[0].children = vec![1, 2, 3];
    nodes[1].focus = 3;
    nodes[2].focus = 1;
    nodes[3].focus = 3;
    UINode::sort_all(&mut nodes);
    assert_eq!(nodes[0].children, vec![2, 1, 3]);
}

#[test]
fn sort_all_keeps_every_child_and_the_order_of_equals() {
    let mut nodes = vec![UINode::root(), UINode::root(), UINode::root(), UINode::root(), UINode::root()];
    nodes[0].children = vec![3, 1, 4, 3, 2];
    nodes[1].focus = 3;
    nodes[2].focus = 1;
    nodes[3].focus = 2;
    nodes[4].focus = 3;
    UINode::sort_all(&mut nodes);
    assert_eq!(nodes[0].children, vec![2, 3, 3, 1, 4]);
}

#[test]
fn text_is_laid_out_glyph_by_glyph() {
    let label = TextLabel { x: 0, y: 0, message: String::from("Ab c\nz") };
    let glyphs = UI::render_text_label(&label, (10, 20)).unwrap();
    assert_eq!(
        glyphs,
        vec![
            Glyph { x: 10, y: 20, column: 0, row: 0 },
            Glyph { x: 16, y: 20, column: 7, row: 2 },
            Glyph { x: 28, y: 20, column: 8, row: 2 },
            Glyph { x: 10, y: 30, column: 1, row: 5 },
        ]
    );
}

#[test]
fn unknown_characters_use_the_fallback_cell() {
    let label = TextLabel { x: 1, y: 2, message: String::from("#?") };
    let glyphs = UI::render_text_label(&label, (0, 0)).unwrap();
    assert_eq!(glyphs, vec![Glyph { x: 1, y: 2, column: 7, row: 6 }, Glyph { x: 7, y: 2, column: 8, row: 6 }]);
    assert_eq!(FONT_CHARS.find('?'), Some(68));
}

#[test]
fn text_that_leaves_the_coordinates_is_refused() {
    let label = TextLabel { x: i32::MAX - 3, y: 0, message: String::from("a") };
    assert_eq!(UI::render_text_label(&label, (0, 0)), None);
    let label = TextLabel { x: i32::MAX, y: 0, message: String::new() };
    assert_eq!(UI::render_text_label(&label, (1, 0)), None);
}

#[test]
fn scissor_counts_from_the_bottom() {
    let ui = UI::new();
    assert_eq!(ui.scissor_rect((10, 20, 100, 50)), Some((10, 890, 100, 50)));
    assert_eq!(ui.scissor_rect((0, i32::MIN, 10, 10)), None);
}

#[test]
fn frame_texture_origins() {
    assert_eq!(FrameType::Simple.get_texture_origin(), (0, 0));
    assert_eq!(FrameType::Interactable.get_texture_origin(), (48, 0));
}
