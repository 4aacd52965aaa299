use vstd::prelude::*;

use crate::ui::{fits_i32, inside_fits, is_slider_node, node_added, slider_progress, strictly_inside, FrameInteraction, SliderInteraction, UI};

verus! {

/// The kinds of windows of the editor.
#[derive(Clone, Copy, Debug, PartialEq, Eq, Structural)]
pub enum EditorWindowType {
    Test,
    MaterialPicker,
    LightEditor,
}

impl EditorWindowType {
    /// The title shown in the window's title bar.
    pub fn title(&self) -> (t: &str)
        ensures
            t@ == (match *self {
                EditorWindowType::Test => "Test"@,
                EditorWindowType::MaterialPicker => "Materials"@,
                EditorWindowType::LightEditor => "Light Properties"@,
            }),
    {
        match self {
            Self::Test => "Test",
            Self::MaterialPicker => "Materials",
            Self::LightEditor => "Light Properties",
        }
    }
}

/// Keeps the level of every slider of a window from one frame to the next. The sliders are
/// told apart by the order in which they are added each frame.
pub struct SliderManager {
    pub slider_levels: Vec<u32>,
    pub active_slider: Option<usize>,
    pub sliders: Vec<SliderInteraction>,
    pub current_slider: usize,
}

impl SliderManager {
    pub open spec fn wf(&self) -> bool {
        &&& self.slider_levels@.len() == self.sliders@.len()
        &&& self.current_slider <= self.sliders@.len()
        &&& self.active_slider matches Some(a) ==> a < self.sliders@.len()
    }

    pub fn new() -> (m: Self)
        ensures
            m.wf(),
            m.active_slider is None,
            m.current_slider == 0,
            m.slider_levels@ == Seq::<u32>::empty(),
            m.sliders@ == Seq::<SliderInteraction>::empty(),
    {
        Self { active_slider: None, current_slider: 0, slider_levels: Vec::new(), sliders: Vec::new() }
    }

    /// Starts a new frame: the next slider added is the first one again.
    pub fn reset(&mut self)
        requires
            old(self).wf(),
        ensures
            final(self).wf(),
            final(self).current_slider == 0,
            final(self).active_slider == old(self).active_slider,
            final(self).slider_levels@ == old(self).slider_levels@,
            final(self).sliders@ == old(self).sliders@,
    {
        self.current_slider = 0;
    }

    /// Records what the mouse did to the next slider of the frame; a clicked slider becomes the
    /// active one, and a slider seen for the first time starts at level 0.
    pub fn add_slider(&mut self, interaction: SliderInteraction)
        requires
            old(self).wf(),
        ensures
            final(self).wf(),
            final(self).current_slider == old(self).current_slider + 1,
            final(self).active_slider == (if interaction.clicked { Some(old(self).current_slider) } else { old(self).active_slider }),
            old(self).current_slider == old(self).sliders@.len() ==> {
                &&& final(self).sliders@ == old(self).sliders@.push(interaction)
                &&& final(self).slider_levels@ == old(self).slider_levels@.push(0)
            },
            old(self).current_slider < old(self).sliders@.len() ==> {
                &&& final(self).sliders@ == old(self).sliders@.update(old(self).current_slider as int, interaction)
                &&& final(self).slider_levels@ == old(self).slider_levels@
            },
    {
        if interaction.clicked {
            self.active_slider = Some(self.current_slider);
        }

        if self.current_slider >= self.sliders.len() {
            self.sliders.push(interaction);
            self.slider_levels.push(0);
        } else {
            self.sliders.set(self.current_slider, interaction);
        }
        let count = self.sliders.len();
        assert(self.current_slider < count);
        self.current_slider += 1;
    }

    /// Ends the frame: letting go of the left mouse button deactivates the active slider;
    /// the active slider's level follows the mouse.
    pub fn end_of_loop(&mut self, left_released: bool)
        requires
            old(self).wf(),
        ensures
            final(self).wf(),
            final(self).active_slider == (if left_released { None } else { old(self).active_slider }),
            final(self).sliders@ == old(self).sliders@,
            final(self).current_slider == old(self).current_slider,
            final(self).active_slider matches Some(a) ==> final(self).slider_levels@ == old(self).slider_levels@.update(
                a as int,
                old(self).sliders@[a as int].progress,
            ),
            final(self).active_slider is None ==> final(self).slider_levels@ == old(self).slider_levels@,
    {
        if left_released {
            self.active_slider = None;
        }

        if let Some(slider) = self.active_slider {
            self.slider_levels.set(slider, self.sliders[slider].progress);
        }
    }
}

/// The interface of the play mode; it shows nothing yet.
pub struct PlayModeUI {}

impl PlayModeUI {
    pub fn new() -> (ui: Self) {
        Self {}
    }
}

/// The size, in pixels, of a cell of the material picker.
pub const MATERIAL_FRAME_SIZE: u32 = 100;

/// A window of the editor. The scroll offset of its contents is a float, which the
/// application keeps beside it.
pub struct EditorWindow {
    pub window_type: EditorWindowType,
    pub position: (i32, i32),
    pub scale: (u32, u32),
    pub dragging: bool,
    pub scaling: bool,
    pub drag_origin: (i32, i32),
    pub scale_origin: (u32, u32),
    pub focus: u32,
    pub sliders: SliderManager,
}

/// `b` is `a` with its focus set to `focus`.
pub open spec fn refocused(a: EditorWindow, b: EditorWindow, focus: u32) -> bool {
    &&& b.focus == focus
    &&& b.window_type == a.window_type
    &&& b.position == a.position
    &&& b.scale == a.scale
    &&& b.dragging == a.dragging
    &&& b.scaling == a.scaling
    &&& b.drag_origin == a.drag_origin
    &&& b.scale_origin == a.scale_origin
    &&& b.sliders == a.sliders
}

/// The size of a window being resized: its size when the resize began, moved by the mouse,
/// and at least 48 pixels.
pub open spec fn resized(origin: u32, diff: i32) -> u32 {
    let v = (origin as i32) + diff;
    (if v > 48 { v } else { 48 }) as u32
}

impl EditorWindow {
    pub fn new(window_type: EditorWindowType, pos: (i32, i32), scale: (u32, u32)) -> (w: Self)
        ensures
            w.window_type == window_type,
            w.position == pos,
            w.scale == scale,
            !w.dragging,
            !w.scaling,
            w.drag_origin == (0i32, 0i32),
            w.scale_origin == (0u32, 0u32),
            w.focus == 0,
            w.sliders.wf(),
            w.sliders.active_slider is None,
            w.sliders.current_slider == 0,
            w.sliders.slider_levels@ == Seq::<u32>::empty(),
            w.sliders.sliders@ == Seq::<SliderInteraction>::empty(),
    {
        Self {
            dragging: false,
            scaling: false,
            position: pos,
            scale,
            window_type,
            drag_origin: (0, 0),
            scale_origin: (0, 0),
            focus: 0,
            sliders: SliderManager::new(),
        }
    }

    /// Moves or resizes a window that is being dragged or resized, to follow the mouse, which
    /// has moved by `diff` since the drag or resize began; letting go of the left button ends
    /// it.
    pub fn follow_mouse(&mut self, left_released: bool, diff: (i32, i32))
        requires
            old(self).dragging && !left_released ==> fits_i32(old(self).drag_origin.0 + diff.0) && fits_i32(old(self).drag_origin.1 + diff.1),
            old(self).scaling && !left_released ==> fits_i32((old(self).scale_origin.0 as i32) + diff.0) && fits_i32((old(self).scale_origin.1 as i32) + diff.1),
        ensures
            final(self).dragging == (old(self).dragging && !left_released),
            final(self).scaling == (old(self).scaling && !left_released),
            final(self).position == (if old(self).dragging && !left_released {
                ((old(self).drag_origin.0 + diff.0) as i32, (old(self).drag_origin.1 + diff.1) as i32)
            } else {
                old(self).position
            }),
            final(self).scale == (if old(self).scaling && !left_released {
                (resized(old(self).scale_origin.0, diff.0), resized(old(self).scale_origin.1, diff.1))
            } else {
                old(self).scale
            }),
            final(self).window_type == old(self).window_type,
            final(self).drag_origin == old(self).drag_origin,
            final(self).scale_origin == old(self).scale_origin,
            final(self).focus == old(self).focus,
            final(self).sliders == old(self).sliders,
    {
        if self.dragging {
            if left_released {
                self.dragging = false;
            } else {
                self.position = (self.drag_origin.0 + diff.0, self.drag_origin.1 + diff.1);
            }
        }

        if self.scaling {
            if left_released {
                self.scaling = false;
            } else {
                let w = self.scale_origin.0 as i32 + diff.0;
                let h = self.scale_origin.1 as i32 + diff.1;
                self.scale = ((if w > 48 { w } else { 48 }) as u32, (if h > 48 { h } else { 48 }) as u32);
            }
        }
    }
}

/// `b` is the manager `a` once the next slider of the frame reported `i` (see
/// `SliderManager::add_slider`).
pub open spec fn slider_added(a: SliderManager, b: SliderManager, i: SliderInteraction) -> bool {
    &&& b.wf()
    &&& b.current_slider == a.current_slider + 1
    &&& b.active_slider == (if i.clicked { Some(a.current_slider) } else { a.active_slider })
    &&& a.current_slider == a.sliders@.len() ==> {
        &&& b.sliders@ == a.sliders@.push(i)
        &&& b.slider_levels@ == a.slider_levels@.push(0)
    }
    &&& a.current_slider < a.sliders@.len() ==> {
        &&& b.sliders@ == a.sliders@.update(a.current_slider as int, i)
        &&& b.slider_levels@ == a.slider_levels@
    }
}

/// The level the manager keeps for the next slider of the frame; 0 for a slider not seen yet.
pub open spec fn next_level(m: SliderManager) -> u32 {
    if m.current_slider < m.slider_levels@.len() {
        m.slider_levels@[m.current_slider as int]
    } else {
        0
    }
}

impl EditorWindow {
    /// A horizontal slider of the window, drawn at its kept level; returns that level.
    pub fn slider(&mut self, ui: &mut UI, mouse: (i32, i32), clicked: bool, x: i32, y: i32, size: u32) -> (level: u32)
        requires
            old(self).sliders.wf(),
            old(ui).wf(),
            old(ui).inc_focus < u32::MAX,
            old(ui).mouse_in_clip_rect_fits(mouse.0, mouse.1),
            fits_i32(x + old(ui).current_global_origin.0),
            fits_i32(y + old(ui).current_global_origin.1),
            fits_i32(mouse.0 - (x + old(ui).current_global_origin.0)),
            fits_i32(y + old(ui).current_global_origin.1 - 20),
            old(ui).spec_mouse_in_clip_rect(mouse.0, mouse.1) ==> inside_fits(
                mouse.0 as int,
                mouse.1 as int,
                x + old(ui).current_global_origin.0,
                y + old(ui).current_global_origin.1 - 20,
                (size as i32) as int,
                40,
            ),
        ensures
            level == next_level(old(self).sliders),
            ({
                let gx = x + old(ui).current_global_origin.0;
                let gy = y + old(ui).current_global_origin.1;
                let over = old(ui).spec_mouse_in_clip_rect(mouse.0, mouse.1)
                    && strictly_inside(mouse.0 as int, mouse.1 as int, gx, gy - 20, gx + (size as i32), gy - 20 + 40);
                let i = SliderInteraction { clicked: over && clicked, progress: slider_progress(mouse.0 as int, gx, size) };
                slider_added(old(self).sliders, final(self).sliders, i)
            }),
            final(ui).wf(),
            node_added(old(ui).nodes@, final(ui).nodes@, old(ui).current_node as int),
            is_slider_node(final(ui).nodes@[old(ui).nodes@.len() as int], x, y, size, next_level(old(self).sliders), false, old(ui).inc_focus),
            final(ui).last_modified == old(ui).nodes@.len(),
            final(ui).current_node == old(ui).current_node,
            final(ui).parent_nodes@ == old(ui).parent_nodes@,
            final(ui).current_global_origin == old(ui).current_global_origin,
            final(ui).inc_focus == old(ui).inc_focus + 1,
            final(ui).screen_size == old(ui).screen_size,
            final(ui).mouse_captured == old(ui).mouse_captured,
            final(self).window_type == old(self).window_type,
            final(self).position == old(self).position,
            final(self).scale == old(self).scale,
            final(self).focus == old(self).focus,
            final(self).dragging == old(self).dragging,
            final(self).scaling == old(self).scaling,
            final(self).drag_origin == old(self).drag_origin,
            final(self).scale_origin == old(self).scale_origin,
    {
        let progress = if self.sliders.current_slider < self.sliders.slider_levels.len() {
            self.sliders.slider_levels[self.sliders.current_slider]
        } else {
            0
        };
        let interaction = ui.slider(mouse, clicked, x, y, size, progress);
        self.sliders.add_slider(interaction);
        progress
    }

    /// A vertical slider of the window, drawn at its kept level; returns the size minus that
    /// level, so that the top of the slider reads as its largest value.
    pub fn vertical_slider(&mut self, ui: &mut UI, mouse: (i32, i32), clicked: bool, x: i32, y: i32, size: u32) -> (level: u32)
        requires
            old(self).sliders.wf(),
            next_level(old(self).sliders) <= size,
            old(ui).wf(),
            old(ui).inc_focus < u32::MAX,
            old(ui).mouse_in_clip_rect_fits(mouse.0, mouse.1),
            fits_i32(x + old(ui).current_global_origin.0),
            fits_i32(y + old(ui).current_global_origin.1),
            fits_i32(mouse.1 - (y + old(ui).current_global_origin.1)),
            fits_i32(x + old(ui).current_global_origin.0 - 20),
            old(ui).spec_mouse_in_clip_rect(mouse.0, mouse.1) ==> inside_fits(
                mouse.0 as int,
                mouse.1 as int,
                x + old(ui).current_global_origin.0 - 20,
                y + old(ui).current_global_origin.1,
                40,
                (size as i32) as int,
            ),
        ensures
            level == size - next_level(old(self).sliders),
            ({
                let gx = x + old(ui).current_global_origin.0;
                let gy = y + old(ui).current_global_origin.1;
                let over = old(ui).spec_mouse_in_clip_rect(mouse.0, mouse.1)
                    && strictly_inside(mouse.0 as int, mouse.1 as int, gx - 20, gy, gx - 20 + 40, gy + (size as i32));
                let i = SliderInteraction { clicked: over && clicked, progress: slider_progress(mouse.1 as int, gy, size) };
                slider_added(old(self).sliders, final(self).sliders, i)
            }),
            final(ui).wf(),
            node_added(old(ui).nodes@, final(ui).nodes@, old(ui).current_node as int),
            is_slider_node(final(ui).nodes@[old(ui).nodes@.len() as int], x, y, size, next_level(old(self).sliders), true, old(ui).inc_focus),
            final(ui).last_modified == old(ui).nodes@.len(),
            final(ui).current_node == old(ui).current_node,
            final(ui).parent_nodes@ == old(ui).parent_nodes@,
            final(ui).current_global_origin == old(ui).current_global_origin,
            final(ui).inc_focus == old(ui).inc_focus + 1,
            final(ui).screen_size == old(ui).screen_size,
            final(ui).mouse_captured == old(ui).mouse_captured,
            final(self).window_type == old(self).window_type,
            final(self).position == old(self).position,
            final(self).scale == old(self).scale,
            final(self).focus == old(self).focus,
            final(self).dragging == old(self).dragging,
            final(self).scaling == old(self).scaling,
            final(self).drag_origin == old(self).drag_origin,
            final(self).scale_origin == old(self).scale_origin,
    {
        let progress = if self.sliders.current_slider < self.sliders.slider_levels.len() {
            self.sliders.slider_levels[self.sliders.current_slider]
        } else {
            0
        };
        let interaction = ui.vertical_slider(mouse, clicked, x, y, size, progress);
        self.sliders.add_slider(interaction);
        size - progress
    }
}

/// The last window of type `t` in `ws`, or -1 if there is none.
pub open spec fn last_of_type(ws: Seq<EditorWindow>, t: EditorWindowType) -> int
    decreases ws.len(),
{
    if ws.len() == 0 {
        -1
    } else if ws.last().window_type == t {
        ws.len() - 1
    } else {
        last_of_type(ws.drop_last(), t)
    }
}

proof fn lemma_last_of_type(ws: Seq<EditorWindow>, t: EditorWindowType)
    ensures
        -1 <= last_of_type(ws, t) < ws.len(),
        last_of_type(ws, t) >= 0 ==> ws[last_of_type(ws, t)].window_type == t,
        forall|j: int| last_of_type(ws, t) < j < ws.len() ==> #[trigger] ws[j].window_type != t,
    decreases ws.len(),
{
    if ws.len() > 0 && ws.last().window_type != t {
        lemma_last_of_type(ws.drop_last(), t);
        assert forall|j: int| last_of_type(ws, t) < j < ws.len() implies #[trigger] ws[j].window_type != t by {
            if j < ws.len() - 1 {
                assert(ws[j] == ws.drop_last()[j]);
            }
        }
    }
}

/// The windows of the editor. Every window has a focus; a window brought to the front gets
/// a focus higher than any before.
pub struct EditorModeUI {
    pub windows: Vec<EditorWindow>,
    pub highest_focus: u32,
}

/// The window whose interaction a frame of the editor acts on: of the windows that reported
/// one, the one of highest focus (the last of them, among equals).
pub struct InteractionChoice {
    pub highest_focus: u32,
    pub chosen: Option<(usize, FrameInteraction)>,
}

impl InteractionChoice {
    pub fn new() -> (c: Self)
        ensures
            c.highest_focus == 0,
            c.chosen is None,
    {
        Self { highest_focus: 0, chosen: None }
    }
}

impl EditorModeUI {
    pub fn new() -> (e: Self)
        ensures
            e.highest_focus == 0,
            e.windows@.len() == 1,
            e.windows@[0].window_type == EditorWindowType::LightEditor,
            e.windows@[0].position == (100i32, 100i32),
            e.windows@[0].scale == (400u32, 400u32),
            !e.windows@[0].dragging && !e.windows@[0].scaling,
            e.windows@[0].focus == 0,
            e.windows@[0].drag_origin == (0i32, 0i32),
            e.windows@[0].scale_origin == (0u32, 0u32),
            e.windows@[0].sliders.wf(),
            e.windows@[0].sliders.active_slider is None,
            e.windows@[0].sliders.current_slider == 0,
            e.windows@[0].sliders.slider_levels@ == Seq::<u32>::empty(),
            e.windows@[0].sliders.sliders@ == Seq::<SliderInteraction>::empty(),
    {
        let mut windows: Vec<EditorWindow> = Vec::new();
        windows.push(EditorWindow::new(EditorWindowType::LightEditor, (100, 100), (400, 400)));
        Self { windows, highest_focus: 0 }
    }

    /// Adds a window in front of all others.
    pub fn add_window(&mut self, window: EditorWindow)
        requires
            old(self).highest_focus < u32::MAX,
        ensures
            final(self).highest_focus == old(self).highest_focus + 1,
            final(self).windows@.len() == old(self).windows@.len() + 1,
            final(self).windows@.drop_last() == old(self).windows@,
            refocused(window, final(self).windows@.last(), final(self).highest_focus),
    {
        let mut window = window;
        window.focus = self.highest_focus + 1;
        self.highest_focus += 1;
        self.windows.push(window);
        proof {
            assert(self.windows@.drop_last() =~= old(self).windows@);
        }
    }

    /// Brings window `window` in front of all others.
    pub fn focus_window(&mut self, window: usize)
        requires
            window < old(self).windows@.len(),
            old(self).highest_focus < u32::MAX,
        ensures
            final(self).highest_focus == old(self).highest_focus + 1,
            final(self).windows@.len() == old(self).windows@.len(),
            refocused(old(self).windows@[window as int], final(self).windows@[window as int], final(self).highest_focus),
            forall|i: int| 0 <= i < old(self).windows@.len() && i != window ==> #[trigger] final(self).windows@[i] == old(self).windows@[i],
    {
        self.windows[window].focus = self.highest_focus + 1;
        self.highest_focus += 1;
    }

    /// Closes the window of type `window_type` (the last one, if there are several), or opens
    /// one in front of the others if there is none. Returns the index of the window closed.
    pub fn toggle_window(&mut self, window_type: EditorWindowType) -> (closed: Option<usize>)
        requires
            old(self).highest_focus < u32::MAX,
        ensures
            ({
                let i = last_of_type(old(self).windows@, window_type);
                if i >= 0 {
                    &&& closed == Some(i as usize)
                    &&& final(self).windows@ == old(self).windows@.remove(i)
                    &&& final(self).highest_focus == old(self).highest_focus
                } else {
                    let w = final(self).windows@.last();
                    &&& closed is None
                    &&& final(self).highest_focus == old(self).highest_focus + 1
                    &&& final(self).windows@.drop_last() == old(self).windows@
                    &&& final(self).windows@.len() == old(self).windows@.len() + 1
                    &&& w.window_type == window_type
                    &&& w.position == (100i32, 100i32)
                    &&& w.scale == (400u32, 400u32)
                    &&& !w.dragging && !w.scaling
                    &&& w.drag_origin == (0i32, 0i32)
                    &&& w.scale_origin == (0u32, 0u32)
                    &&& w.focus == final(self).highest_focus
                    &&& w.sliders.wf()
                    &&& w.sliders.active_slider is None
                    &&& w.sliders.current_slider == 0
                    &&& w.sliders.slider_levels@ == Seq::<u32>::empty()
                    &&& w.sliders.sliders@ == Seq::<SliderInteraction>::empty()
                }
            }),
    {
        proof {
            lemma_last_of_type(self.windows@, window_type);
        }
        let mut open: Option<usize> = None;
        let mut i: usize = 0;
        while i < self.windows.len()
            invariant
                i <= self.windows@.len(),
                self.windows@ == old(self).windows@,
                open matches Some(o) ==> o < i && self.windows@[o as int].window_type == window_type
                    && forall|j: int| o < j < i ==> #[trigger] self.windows@[j].window_type != window_type,
                open is None ==> forall|j: int| 0 <= j < i ==> #[trigger] self.windows@[j].window_type != window_type,
            decreases self.windows@.len() - i,
        {
            if self.windows[i].window_type == window_type {
                open = Some(i);
            }
            i += 1;
        }
        proof {
            let l = last_of_type(self.windows@, window_type);
            match open {
                Some(o) => {
                    if l < o {
                        assert(self.windows@[o as int].window_type == window_type);
                    }
                    if l > o {
                        assert(self.windows@[l].window_type != window_type);
                    }
                },
                None => {
                    if l >= 0 {
                        assert(self.windows@[l].window_type != window_type);
                    }
                },
            }
        }
        if let Some(i) = open {
            self.windows.remove(i);
        } else {
            self.add_window(EditorWindow::new(window_type, (100, 100), (400, 400)));
        }
        open
    }

    /// Offers the interaction that window `i` reported this frame: it is chosen over the one
    /// chosen so far if the window's focus is not lower. A drag or resize that is chosen
    /// records the window's position or size to start from.
    pub fn offer_interaction(&mut self, choice: &mut InteractionChoice, i: usize, interaction: FrameInteraction)
        requires
            i < old(self).windows@.len(),
        ensures
            ({
                let w = old(self).windows@[i as int];
                let taken = w.focus >= old(choice).highest_focus;
                &&& final(choice).chosen == (if taken { Some((i, interaction)) } else { old(choice).chosen })
                &&& final(choice).highest_focus == (if taken { w.focus } else { old(choice).highest_focus })
                &&& final(self).highest_focus == old(self).highest_focus
                &&& final(self).windows@.len() == old(self).windows@.len()
                &&& forall|j: int| 0 <= j < old(self).windows@.len() && j != i ==> #[trigger] final(self).windows@[j] == old(self).windows@[j]
                &&& final(self).windows@[i as int].drag_origin == (if taken && interaction == FrameInteraction::DragBegin { w.position } else { w.drag_origin })
                &&& final(self).windows@[i as int].scale_origin == (if taken && interaction == FrameInteraction::ResizeBegin { w.scale } else { w.scale_origin })
                &&& final(self).windows@[i as int].window_type == w.window_type
                &&& final(self).windows@[i as int].position == w.position
                &&& final(self).windows@[i as int].scale == w.scale
                &&& final(self).windows@[i as int].dragging == w.dragging
                &&& final(self).windows@[i as int].scaling == w.scaling
                &&& final(self).windows@[i as int].focus == w.focus
                &&& final(self).windows@[i as int].sliders == w.sliders
            }),
    {
        if self.windows[i].focus >= choice.highest_focus {
            choice.highest_focus = self.windows[i].focus;
            choice.chosen = Some((i, interaction));
            match interaction {
                FrameInteraction::DragBegin => {
                    let position = self.windows[i].position;
                    self.windows[i].drag_origin = position;
                },
                FrameInteraction::ResizeBegin => {
                    let scale = self.windows[i].scale;
                    self.windows[i].scale_origin = scale;
                },
                _ => {},
            }
        }
    }

    /// Acts on the interaction chosen this frame: closes the window, starts dragging or
    /// resizing it, or brings it to the front when its contents were clicked. A scroll is
    /// left to the caller, which keeps the scroll offsets.
    pub fn apply_interaction(&mut self, chosen: Option<(usize, FrameInteraction)>)
        requires
            chosen matches Some((i, _)) ==> i < old(self).windows@.len(),
            old(self).highest_focus < u32::MAX,
        ensures
            (match chosen {
                Some((i, FrameInteraction::Close)) => final(self).windows@ == old(self).windows@.remove(i as int)
                    && final(self).highest_focus == old(self).highest_focus,
                Some((i, FrameInteraction::Scroll)) => final(self).windows@ == old(self).windows@
                    && final(self).highest_focus == old(self).highest_focus,
                Some((i, interaction)) => {
                    let w = old(self).windows@[i as int];
                    let v = final(self).windows@[i as int];
                    &&& final(self).highest_focus == old(self).highest_focus + 1
                    &&& final(self).windows@.len() == old(self).windows@.len()
                    &&& forall|j: int| 0 <= j < old(self).windows@.len() && j != i ==> #[trigger] final(self).windows@[j] == old(self).windows@[j]
                    &&& v.focus == final(self).highest_focus
                    &&& v.dragging == (w.dragging || interaction == FrameInteraction::DragBegin)
                    &&& v.scaling == (w.scaling || interaction == FrameInteraction::ResizeBegin)
                    &&& v.window_type == w.window_type
                    &&& v.position == w.position
                    &&& v.scale == w.scale
                    &&& v.drag_origin == w.drag_origin
                    &&& v.scale_origin == w.scale_origin
                    &&& v.sliders == w.sliders
                },
                None => final(self).windows@ == old(self).windows@ && final(self).highest_focus == old(self).highest_focus,
            }),
    {
        match chosen {
            Some((i, FrameInteraction::Close)) => {
                self.windows.remove(i);
            },
            Some((i, FrameInteraction::DragBegin)) => {
                self.windows[i].dragging = true;
                self.focus_window(i);
            },
            Some((i, FrameInteraction::ResizeBegin)) => {
                self.windows[i].scaling = true;
                self.focus_window(i);
            },
            Some((i, FrameInteraction::OtherContentsClicked)) => {
                self.focus_window(i);
            },
            _ => {},
        }
    }
}

/// How many material cells a row of a window `width` wide holds: at least one.
pub open spec fn cells_per_row(width: u32) -> int {
    let r = width / MATERIAL_FRAME_SIZE;
    if r > 1 { r as int } else { 1 }
}

/// Where the `i`th material cell of the picker stands in its window, with `per_row` cells to
/// a row, below a strip of 16 pixels.
pub open spec fn material_cell(i: int, per_row: int) -> (int, int) {
    ((i % per_row) * (MATERIAL_FRAME_SIZE as int), 16 + (i / per_row) * (MATERIAL_FRAME_SIZE as int))
}

/// The position of cell `k` fits in `i32`.
pub open spec fn material_cell_fits(k: int, per_row: int) -> bool {
    fits_i32(material_cell(k, per_row).0) && fits_i32(material_cell(k, per_row).1)
}

proof fn lemma_next_cell(i: int, per: int)
    requires
        0 <= i,
        0 < per,
    ensures
        (i + 1) % per == 0 ==> (i + 1) / per == i / per + 1,
        (i + 1) % per != 0 ==> (i + 1) % per == i % per + 1 && (i + 1) / per == i / per,
{
    let q = i / per;
    let r = i % per;
    vstd::arithmetic::div_mod::lemma_fundamental_div_mod(i, per);
    vstd::arithmetic::div_mod::lemma_mod_pos_bound(i, per);
    assert(per * q == q * per) by (nonlinear_arith);
    if r + 1 == per {
        assert(i + 1 == (q + 1) * per + 0) by (nonlinear_arith)
            requires
                i == q * per + r,
                r + 1 == per,
        ;
        vstd::arithmetic::div_mod::lemma_fundamental_div_mod_converse(i + 1, per, q + 1, 0);
    } else {
        vstd::arithmetic::div_mod::lemma_fundamental_div_mod_converse(i + 1, per, q, r + 1);
    }
}

/// The positions of the `count` cells of the material picker in a window `width` wide,
/// filled row by row; `None` where a position leaves `i32`.
pub fn material_cells(width: u32, count: usize) -> (cells: Option<Vec<(i32, i32)>>)
    ensures
        cells is Some <==> forall|k: int| 1 <= k <= count ==> #[trigger] material_cell_fits(k, cells_per_row(width)),
        cells matches Some(v) ==> v@.len() == count && forall|i: int|
            0 <= i < count ==> #[trigger] v@[i] == (
                material_cell(i, cells_per_row(width)).0 as i32,
                material_cell(i, cells_per_row(width)).1 as i32,
            ),
{
    let r = width / MATERIAL_FRAME_SIZE;
    let per_row: u32 = if r > 1 { r } else { 1 };
    let ghost per = cells_per_row(width);
    let mut cells: Vec<(i32, i32)> = Vec::new();
    let mut x: i32 = 0;
    let mut y: i32 = 16;
    let mut i: usize = 0;
    proof {
        assert(0int % per == 0) by (nonlinear_arith) requires per > 0;
        assert(0int / per == 0) by (nonlinear_arith) requires per > 0;
    }
    while i < count
        invariant
            per == per_row as int,
            per == cells_per_row(width),
            per > 0,
            i <= count,
            x == material_cell(i as int, per).0,
            y == material_cell(i as int, per).1,
            cells@.len() == i,
            forall|j: int| 0 <= j < i ==> #[trigger] cells@[j] == (material_cell(j, per).0 as i32, material_cell(j, per).1 as i32),
            forall|k: int| 1 <= k <= i ==> #[trigger] material_cell_fits(k, per),
        decreases count - i,
    {
        cells.push((x, y));
        proof {
            lemma_next_cell(i as int, per);
        }
        if (i + 1) % (per_row as usize) == 0 {
            x = 0;
            y = match y.checked_add(MATERIAL_FRAME_SIZE as i32) {
                Some(v) => v,
                None => {
                    proof {
                        assert(!material_cell_fits(i + 1, per));
                    }
                    return None;
                },
            };
        } else {
            x = match x.checked_add(MATERIAL_FRAME_SIZE as i32) {
                Some(v) => v,
                None => {
                    proof {
                        assert(!material_cell_fits(i + 1, per));
                    }
                    return None;
                },
            };
        }
        proof {
            assert(material_cell_fits(i + 1, per));
        }
        i += 1;
    }
    Some(cells)
}

/// Law: opening a window of a type that has none, then toggling that type again, closes it:
/// the windows are those from before.
pub proof fn law_toggle_twice_closes(ws: Seq<EditorWindow>, t: EditorWindowType, added: Seq<EditorWindow>)
    requires
        last_of_type(ws, t) == -1,
        added.len() == ws.len() + 1,
        added.drop_last() == ws,
        added.last().window_type == t,
    ensures
        last_of_type(added, t) == ws.len(),
        added.remove(ws.len() as int) == ws,
{
    assert(added.remove(ws.len() as int) =~= ws);
}

/// Law: no two materials of the picker share a cell.
pub proof fn law_material_cells_distinct(i: int, j: int, width: u32)
    requires
        0 <= i,
        0 <= j,
        i != j,
    ensures
        material_cell(i, cells_per_row(width)) != material_cell(j, cells_per_row(width)),
{
    let per = cells_per_row(width);
    vstd::arithmetic::div_mod::lemma_fundamental_div_mod(i, per);
    vstd::arithmetic::div_mod::lemma_fundamental_div_mod(j, per);
    if material_cell(i, per) == material_cell(j, per) {
        assert(i % per == j % per);
        assert(i / per == j / per);
    }
}

/// Law: each slider of a window reads its own kept level: the slider added `k`-th in a frame
/// (counting from 0) is drawn at, and reports, level `k` of the window's levels, where the
/// window has kept one for it; a slider not seen before reads 0.
pub proof fn law_slider_reads_its_own_level(m: SliderManager, k: int)
    requires
        m.current_slider == k,
    ensures
        0 <= k < m.slider_levels@.len() ==> next_level(m) == m.slider_levels@[k],
        k >= m.slider_levels@.len() ==> next_level(m) == 0,
{
}

/// Law: two sliders added one after the other in a frame read the two levels kept one after
/// the other, so that sliders of one window do not read each other's levels.
pub proof fn law_successive_sliders_read_successive_levels(a: SliderManager, b: SliderManager, i: SliderInteraction)
    requires
        a.wf(),
        slider_added(a, b, i),
        a.current_slider + 1 < a.slider_levels@.len(),
    ensures
        next_level(a) == a.slider_levels@[a.current_slider as int],
        next_level(b) == a.slider_levels@[a.current_slider + 1],
{
}

/// Law: a window being resized is never smaller than 48 pixels, and otherwise follows the
/// mouse exactly: its size when the resize began plus how far the mouse moved.
pub proof fn law_resize_follows_mouse(origin: u32, diff: i32)
    requires
        origin <= i32::MAX,
        i32::MIN <= origin + diff <= i32::MAX,
    ensures
        resized(origin, diff) >= 48,
        origin + diff >= 48 ==> resized(origin, diff) == origin + diff,
        origin + diff < 48 ==> resized(origin, diff) == 48,
{
}

} // verus!
