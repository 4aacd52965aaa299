use vstd::prelude::*;

verus! {

/// What is selected in the editor.
#[derive(Debug)]
pub enum Selection {
    Brush(usize),
    Model(usize),
    Multiple(Vec<Selection>),
}

/// The two ways a selection can be manipulated in the editor.
#[derive(Clone, Copy, Debug, PartialEq, Eq, Structural)]
pub enum SelectionType {
    Movement,
    Scaling,
}

/// The other way of manipulating a selection.
pub open spec fn cycled(t: SelectionType) -> SelectionType {
    match t {
        SelectionType::Movement => SelectionType::Scaling,
        SelectionType::Scaling => SelectionType::Movement,
    }
}

impl SelectionType {
    /// The other way of manipulating a selection.
    pub fn cycle(&self) -> (next: Self)
        ensures
            next == cycled(*self),
    {
        match self {
            Self::Movement => Self::Scaling,
            Self::Scaling => Self::Movement,
        }
    }
}

/// The axis along which a selection is dragged.
#[derive(Clone, Copy, Debug, PartialEq, Eq, Structural)]
pub enum DragAxis {
    X,
    Y,
    Z,
}

/// The models of the world that the editor itself uses.
#[derive(Default)]
pub struct InternalModels {
    pub arrow_px: usize,
    pub arrow_nx: usize,
    pub arrow_py: usize,
    pub arrow_ny: usize,
    pub arrow_pz: usize,
    pub arrow_nz: usize,
    pub brushes: usize,
    pub debug_arrow: usize,
    pub box_px: usize,
    pub box_nx: usize,
    pub box_py: usize,
    pub box_ny: usize,
    pub box_pz: usize,
    pub box_nz: usize,
    pub internal_ids: Vec<usize>,
}

/// How the player moves: with the camera, or on its own in first person.
#[derive(Clone, Copy, Debug, PartialEq, Eq, Structural)]
pub enum PlayerMovementMode {
    FollowCamera,
    FirstPerson,
}

/// The brush of a selection of a single brush.
pub open spec fn brush_of(selected: Option<Selection>) -> Option<usize> {
    match selected {
        Some(Selection::Brush(b)) => Some(b),
        _ => None,
    }
}

/// The model of a selection of a single model.
pub open spec fn model_of(selected: Option<Selection>) -> Option<usize> {
    match selected {
        Some(Selection::Model(m)) => Some(m),
        _ => None,
    }
}

/// Adds `new` to a selection: a single selection becomes a multiple one.
pub fn append_selection(selected: Selection, new: Selection) -> (result: Selection)
    ensures
        (match selected {
            Selection::Multiple(v) => result matches Selection::Multiple(r) && r@ == v@.push(new),
            _ => result matches Selection::Multiple(r) && r@ == seq![selected, new],
        }),
{
    match selected {
        Selection::Multiple(v) => {
            let mut v = v;
            v.push(new);
            Selection::Multiple(v)
        },
        single => Selection::Multiple(vec![single, new]),
    }
}

/// What the world must do to the arrows and boxes drawn around a selection, in order.
#[derive(Clone, Copy, Debug, PartialEq, Eq, Structural)]
pub enum SelectionEffect {
    SetArrowsVisible(bool),
    SetBoxesVisible(bool),
    MoveArrowsFar,
    MoveBoxesFar,
}

/// What the editor has selected, and how the selection is manipulated.
#[derive(Debug)]
pub struct EditorSelection {
    pub selected_object: Option<Selection>,
    pub selection_type: SelectionType,
    pub light_selected: Option<usize>,
    pub open_light_ui: Option<usize>,
    pub selection_box_visible: bool,
}

/// `b` is what selecting brush `brush` makes of `a`, with `effects` on the world: the
/// selected brush switches between moving and scaling, another brush is selected for
/// moving.
pub open spec fn brush_selected(a: EditorSelection, b: EditorSelection, brush: usize, effects: Seq<SelectionEffect>) -> bool {
    &&& b.light_selected == a.light_selected
    &&& b.open_light_ui == a.open_light_ui
    &&& b.selection_box_visible == a.selection_box_visible
    &&& if brush_of(a.selected_object) == Some(brush) {
        &&& b.selected_object == a.selected_object
        &&& b.selection_type == cycled(a.selection_type)
        &&& effects == (match a.selection_type {
            SelectionType::Movement => seq![
                SelectionEffect::SetArrowsVisible(false),
                SelectionEffect::SetBoxesVisible(true),
                SelectionEffect::MoveArrowsFar,
            ],
            SelectionType::Scaling => seq![
                SelectionEffect::SetArrowsVisible(true),
                SelectionEffect::SetBoxesVisible(false),
                SelectionEffect::MoveBoxesFar,
            ],
        })
    } else {
        &&& b.selected_object == Some(Selection::Brush(brush))
        &&& b.selection_type == SelectionType::Movement
        &&& effects == seq![SelectionEffect::SetBoxesVisible(false), SelectionEffect::MoveBoxesFar]
    }
}

/// `b` is what selecting model `model`, whose first light is `first_light`, makes of `a`:
/// the model's light is selected (and its editor opened); a model that is not already
/// selected is selected for moving.
pub open spec fn model_selected(
    a: EditorSelection,
    b: EditorSelection,
    model: usize,
    first_light: Option<usize>,
    effects: Seq<SelectionEffect>,
) -> bool {
    &&& b.light_selected == first_light
    &&& b.open_light_ui == (if first_light is Some { first_light } else { a.open_light_ui })
    &&& b.selection_box_visible == a.selection_box_visible
    &&& if model_of(a.selected_object) == Some(model) {
        &&& b.selected_object == a.selected_object
        &&& b.selection_type == a.selection_type
        &&& effects == Seq::<SelectionEffect>::empty()
    } else {
        &&& b.selected_object == Some(Selection::Model(model))
        &&& b.selection_type == SelectionType::Movement
        &&& effects == seq![SelectionEffect::SetBoxesVisible(false), SelectionEffect::MoveBoxesFar]
    }
}

/// `b` is `a` with `item` added to its (present) selection, and no light selected.
pub open spec fn appended_to(a: EditorSelection, b: EditorSelection, item: Selection) -> bool {
    &&& b.light_selected is None
    &&& b.open_light_ui == a.open_light_ui
    &&& b.selection_type == a.selection_type
    &&& b.selection_box_visible == a.selection_box_visible
    &&& match a.selected_object {
        Some(Selection::Multiple(v)) => b.selected_object matches Some(Selection::Multiple(r)) && r@ == v@.push(item),
        Some(single) => b.selected_object matches Some(Selection::Multiple(r)) && r@ == seq![single, item],
        None => false,
    }
}

/// `b` is what selecting model `model`, or adding it to a present selection, makes of `a`.
pub open spec fn model_selected_or_appended(
    a: EditorSelection,
    b: EditorSelection,
    model: usize,
    first_light: Option<usize>,
    effects: Seq<SelectionEffect>,
) -> bool {
    if a.selected_object is None {
        model_selected(a, b, model, first_light, effects)
    } else {
        &&& appended_to(a, b, Selection::Model(model))
        &&& effects == seq![SelectionEffect::SetArrowsVisible(true)]
    }
}

/// `b` is what selecting brush `brush`, or adding it to a present selection, makes of `a`.
pub open spec fn brush_selected_or_appended(a: EditorSelection, b: EditorSelection, brush: usize, effects: Seq<SelectionEffect>) -> bool {
    if a.selected_object is None {
        brush_selected(a, b, brush, effects)
    } else {
        &&& appended_to(a, b, Selection::Brush(brush))
        &&& effects == Seq::<SelectionEffect>::empty()
    }
}

/// `b` is `a` with nothing selected: no object, no light, no selection box.
pub open spec fn deselected(a: EditorSelection, b: EditorSelection) -> bool {
    &&& b.selected_object is None
    &&& b.light_selected is None
    &&& !b.selection_box_visible
    &&& b.selection_type == a.selection_type
    &&& b.open_light_ui == a.open_light_ui
}

/// The effects on the world of deselecting.
pub open spec fn deselect_effects() -> Seq<SelectionEffect> {
    seq![
        SelectionEffect::SetArrowsVisible(false),
        SelectionEffect::SetBoxesVisible(false),
        SelectionEffect::MoveArrowsFar,
        SelectionEffect::MoveBoxesFar,
    ]
}

/// The two steps of releasing the mouse on `model`: first, if `model` is the brushes model
/// (`brushes`) and a renderable of it was hit, on that brush, from `a` to `mid` with `e1`;
/// then on the model itself, if the editor may select it (it is not among `internal_ids`),
/// from `mid` to `b` with `e2`. Each step that is taken shows the arrows after it.
pub open spec fn release_steps(
    a: EditorSelection,
    mid: EditorSelection,
    b: EditorSelection,
    brushes: usize,
    internal_ids: Seq<usize>,
    model: usize,
    renderable: Option<usize>,
    shift: bool,
    first_light: Option<usize>,
    e1: Seq<SelectionEffect>,
    e2: Seq<SelectionEffect>,
    effects: Seq<SelectionEffect>,
) -> bool {
    let brush_step = renderable is Some && model == brushes;
    let model_step = !internal_ids.contains(model);
    &&& if brush_step {
        if shift {
            brush_selected_or_appended(a, mid, renderable->0, e1)
        } else {
            brush_selected(a, mid, renderable->0, e1)
        }
    } else {
        mid == a && e1 == Seq::<SelectionEffect>::empty()
    }
    &&& if model_step {
        if shift { model_selected_or_appended(mid, b, model, first_light, e2) } else { model_selected(mid, b, model, first_light, e2) }
    } else {
        b == mid && e2 == Seq::<SelectionEffect>::empty()
    }
    &&& effects == (if brush_step { e1.push(SelectionEffect::SetArrowsVisible(true)) } else { e1 }) + (if model_step {
        e2.push(SelectionEffect::SetArrowsVisible(true))
    } else {
        e2
    })
}

impl EditorSelection {
    pub fn new() -> (s: Self)
        ensures
            s.selected_object is None,
            s.selection_type == SelectionType::Movement,
            s.light_selected is None,
            s.open_light_ui is None,
            !s.selection_box_visible,
    {
        Self {
            selected_object: None,
            selection_type: SelectionType::Movement,
            light_selected: None,
            open_light_ui: None,
            selection_box_visible: false,
        }
    }

    /// The selected brush, if a single brush is selected.
    pub fn get_selected_brush(&self) -> (brush: Option<usize>)
        ensures
            brush == brush_of(self.selected_object),
    {
        if let Some(Selection::Brush(brush)) = &self.selected_object {
            return Some(*brush);
        }
        None
    }

    /// The selected model, if a single model is selected.
    pub fn get_selected_model(&self) -> (model: Option<usize>)
        ensures
            model == model_of(self.selected_object),
    {
        if let Some(Selection::Model(model)) = &self.selected_object {
            return Some(*model);
        }
        None
    }

    /// Selects brush `brush` (see `brush_selected`).
    pub fn select_brush(&mut self, brush: usize) -> (effects: Vec<SelectionEffect>)
        ensures
            brush_selected(*old(self), *final(self), brush, effects@),
    {
        let mut effects: Vec<SelectionEffect> = Vec::new();
        if let Some(current) = self.get_selected_brush() {
            if current == brush {
                match self.selection_type {
                    SelectionType::Movement => {
                        effects.push(SelectionEffect::SetArrowsVisible(false));
                        effects.push(SelectionEffect::SetBoxesVisible(true));
                        effects.push(SelectionEffect::MoveArrowsFar);
                        assert(effects@ =~= seq![
                            SelectionEffect::SetArrowsVisible(false),
                            SelectionEffect::SetBoxesVisible(true),
                            SelectionEffect::MoveArrowsFar,
                        ]);
                    },
                    SelectionType::Scaling => {
                        effects.push(SelectionEffect::SetArrowsVisible(true));
                        effects.push(SelectionEffect::SetBoxesVisible(false));
                        effects.push(SelectionEffect::MoveBoxesFar);
                        assert(effects@ =~= seq![
                            SelectionEffect::SetArrowsVisible(true),
                            SelectionEffect::SetBoxesVisible(false),
                            SelectionEffect::MoveBoxesFar,
                        ]);
                    },
                }
                self.selection_type = self.selection_type.cycle();
                return effects;
            }
        }
        self.selection_type = SelectionType::Movement;
        self.selected_object = Some(Selection::Brush(brush));
        effects.push(SelectionEffect::SetBoxesVisible(false));
        effects.push(SelectionEffect::MoveBoxesFar);
        assert(effects@ =~= seq![SelectionEffect::SetBoxesVisible(false), SelectionEffect::MoveBoxesFar]);
        effects
    }

    /// Selects model `model`, whose first light is `first_light` (see `model_selected`).
    pub fn select_model(&mut self, model: usize, first_light: Option<usize>) -> (effects: Vec<SelectionEffect>)
        ensures
            model_selected(*old(self), *final(self), model, first_light, effects@),
    {
        if first_light.is_some() {
            self.light_selected = first_light;
            self.open_light_ui = self.light_selected;
        } else {
            self.light_selected = None;
        }

        let mut effects: Vec<SelectionEffect> = Vec::new();
        if let Some(current) = self.get_selected_model() {
            if current == model {
                assert(effects@ =~= Seq::<SelectionEffect>::empty());
                return effects;
            }
        }
        self.selection_type = SelectionType::Movement;
        self.selected_object = Some(Selection::Model(model));
        effects.push(SelectionEffect::SetBoxesVisible(false));
        effects.push(SelectionEffect::MoveBoxesFar);
        assert(effects@ =~= seq![SelectionEffect::SetBoxesVisible(false), SelectionEffect::MoveBoxesFar]);
        effects
    }

    /// Adds `item` to the present selection, and selects no light.
    fn append(&mut self, item: Selection)
        requires
            old(self).selected_object is Some,
        ensures
            appended_to(*old(self), *final(self), item),
    {
        let current = self.selected_object.take();
        match current {
            Some(selected) => {
                self.selected_object = Some(append_selection(selected, item));
            },
            None => {},
        }
        self.light_selected = None;
    }

    /// Selects model `model`, or adds it to the present selection (see
    /// `model_selected_or_appended`).
    pub fn select_or_append_model(&mut self, model: usize, first_light: Option<usize>) -> (effects: Vec<SelectionEffect>)
        ensures
            model_selected_or_appended(*old(self), *final(self), model, first_light, effects@),
    {
        if self.selected_object.is_none() {
            self.select_model(model, first_light)
        } else {
            self.append(Selection::Model(model));
            let mut effects: Vec<SelectionEffect> = Vec::new();
            effects.push(SelectionEffect::SetArrowsVisible(true));
            effects
        }
    }

    /// Selects brush `brush`, or adds it to the present selection (see
    /// `brush_selected_or_appended`).
    pub fn select_or_append_brush(&mut self, brush: usize) -> (effects: Vec<SelectionEffect>)
        ensures
            brush_selected_or_appended(*old(self), *final(self), brush, effects@),
    {
        if self.selected_object.is_none() {
            self.select_brush(brush)
        } else {
            self.append(Selection::Brush(brush));
            Vec::new()
        }
    }

    /// Selects nothing, and hides the arrows, boxes and selection box.
    pub fn deselect(&mut self) -> (effects: Vec<SelectionEffect>)
        ensures
            deselected(*old(self), *final(self)),
            effects@ == deselect_effects(),
    {
        self.selected_object = None;
        let mut effects: Vec<SelectionEffect> = Vec::new();
        effects.push(SelectionEffect::SetArrowsVisible(false));
        effects.push(SelectionEffect::SetBoxesVisible(false));
        self.selection_box_visible = false;
        effects.push(SelectionEffect::MoveArrowsFar);
        effects.push(SelectionEffect::MoveBoxesFar);
        self.light_selected = None;
        effects
    }

    /// A click on nothing deselects.
    pub fn air_clicked(&mut self) -> (effects: Vec<SelectionEffect>)
        ensures
            deselected(*old(self), *final(self)),
            effects@ == deselect_effects(),
    {
        let effects = self.deselect();
        self.selected_object = None;
        effects
    }

    /// The left mouse button was released on `model` (on its renderable `renderable`, if
    /// any), with shift held or not, while the editor is `active`: a brush of the brushes
    /// model, or a model that the editor may select, is selected (or added to the selection
    /// with shift). `first_light` is the first light of `model`. See `release_steps`.
    pub fn model_released(
        &mut self,
        internal: &InternalModels,
        active: bool,
        model: Option<usize>,
        renderable: Option<usize>,
        shift_pressed: bool,
        first_light: Option<usize>,
    ) -> (effects: Vec<SelectionEffect>)
        ensures
            !(active && model is Some) ==> *final(self) == *old(self) && effects@ == Seq::<SelectionEffect>::empty(),
            active && model is Some ==> exists|mid: EditorSelection, e1: Seq<SelectionEffect>, e2: Seq<SelectionEffect>|
                #[trigger] release_steps(
                    *old(self),
                    mid,
                    *final(self),
                    internal.brushes,
                    internal.internal_ids@,
                    model->0,
                    renderable,
                    shift_pressed,
                    first_light,
                    e1,
                    e2,
                    effects@,
                ),
    {
        let mut effects: Vec<SelectionEffect> = Vec::new();
        if !active {
            return effects;
        }
        let model = match model {
            Some(m) => m,
            None => return effects,
        };
        let ghost a = *self;
        let mut e1: Vec<SelectionEffect> = Vec::new();
        let mut brush_step = false;
        if let Some(renderable) = renderable {
            if model == internal.brushes {
                brush_step = true;
                if shift_pressed {
                    e1 = self.select_or_append_brush(renderable);
                } else {
                    e1 = self.select_brush(renderable);
                }
            }
        }
        let ghost mid = *self;
        let ghost g1 = e1@;
        effects.append(&mut e1);
        if brush_step {
            effects.push(SelectionEffect::SetArrowsVisible(true));
        }
        let mut e2: Vec<SelectionEffect> = Vec::new();
        let model_step = internal.can_be_selected(model);
        if model_step {
            if shift_pressed {
                e2 = self.select_or_append_model(model, first_light);
            } else {
                e2 = self.select_model(model, first_light);
            }
        }
        let ghost g2 = e2@;
        let ghost before = effects@;
        effects.append(&mut e2);
        if model_step {
            effects.push(SelectionEffect::SetArrowsVisible(true));
        }
        proof {
            let first = if brush_step { g1.push(SelectionEffect::SetArrowsVisible(true)) } else { g1 };
            let second = if model_step { g2.push(SelectionEffect::SetArrowsVisible(true)) } else { g2 };
            assert(before == first);
            assert(effects@ =~= first + second);
            assert(release_steps(a, mid, *self, internal.brushes, internal.internal_ids@, model, renderable, shift_pressed, first_light, g1, g2, effects@));
        }
        effects
    }
}

/// Whether a drag along an axis ends: one is going on (`axis`) and the left button was let go.
pub fn drag_ends(axis: Option<DragAxis>, left_released: bool) -> (ends: bool)
    ensures
        ends == (axis is Some && left_released),
{
    axis.is_some() && left_released
}

/// One update of the player's jump: for `coyote` updates after last standing on the ground,
/// the player may still jump, and does when space was just pressed; each such update uses
/// one of them up. True when the player jumps.
pub fn coyote_jump(coyote: &mut u32, space_just_pressed: bool) -> (jumps: bool)
    ensures
        jumps == (*old(coyote) > 0 && space_just_pressed),
        *final(coyote) == if *old(coyote) > 0 { (*old(coyote) - 1) as u32 } else { 0 },
{
    if *coyote > 0 {
        *coyote -= 1;
        space_just_pressed
    } else {
        false
    }
}

/// Whether the player steers with the control of the ground it last stood on (while it may
/// still jump, and there is such a ground), rather than with its control in the air.
pub fn ground_control(coyote: u32, has_ground: bool) -> (b: bool)
    ensures
        b == (coyote > 0 && has_ground),
{
    coyote > 0 && has_ground
}

/// The jumps of `updates` updates in a row, from `coyote` updates left to jump in and with
/// space just pressed in each.
pub open spec fn coyote_jumps(coyote: u32, updates: nat) -> Seq<bool>
    decreases updates,
{
    if updates == 0 {
        Seq::empty()
    } else {
        let left: u32 = if coyote > 0 { (coyote - 1) as u32 } else { 0 };
        seq![coyote > 0] + coyote_jumps(left, (updates - 1) as nat)
    }
}

/// Law: a player who left the ground with `coyote` updates to jump in can jump in exactly
/// the next `coyote` updates, and in none after them.
pub proof fn law_jump_only_in_coyote_time(coyote: u32, updates: nat)
    ensures
        coyote_jumps(coyote, updates) == Seq::new(updates, |i: int| i < coyote),
    decreases updates,
{
    if updates > 0 {
        let left: u32 = if coyote > 0 { (coyote - 1) as u32 } else { 0 };
        law_jump_only_in_coyote_time(left, (updates - 1) as nat);
    }
    assert(coyote_jumps(coyote, updates) =~= Seq::new(updates, |i: int| i < coyote));
}

/// A copy made of a selected item: a brush, or a model with its first light.
#[derive(Clone, Copy, Debug, PartialEq, Eq, Structural)]
pub enum Duplicate {
    Brush(usize),
    Model(usize, Option<usize>),
}

/// The light of a copied model.
pub open spec fn copy_light(c: Duplicate) -> Option<usize> {
    match c {
        Duplicate::Model(_, light) => light,
        Duplicate::Brush(_) => None,
    }
}

/// The effects of adding a copy to a selection of several, and showing the arrows.
pub open spec fn later_copy_effects(c: Duplicate) -> Seq<SelectionEffect> {
    match c {
        Duplicate::Model(..) => seq![SelectionEffect::SetArrowsVisible(true), SelectionEffect::SetArrowsVisible(true)],
        Duplicate::Brush(_) => seq![SelectionEffect::SetArrowsVisible(true)],
    }
}

/// The effects of adding `copies` to a selection of several, one after the other.
pub open spec fn copies_effects(copies: Seq<Duplicate>) -> Seq<SelectionEffect>
    decreases copies.len(),
{
    if copies.len() == 0 {
        Seq::empty()
    } else {
        copies_effects(copies.drop_last()) + later_copy_effects(copies.last())
    }
}

/// `b` is what copying the selected items to `copies` makes of `a`, with `effects` on the
/// world: a single copy is selected as its item would be from an empty selection; several
/// are selected one after the other once the selection is cleared, the arrows shown after
/// each. Either way the items selected before the copy stay selected.
pub open spec fn duplicate_steps(a: EditorSelection, b: EditorSelection, copies: Seq<Duplicate>, effects: Seq<SelectionEffect>) -> bool {
    let first = copies[0];
    let opened = if copy_light(first) is Some { copy_light(first) } else { a.open_light_ui };
    &&& b.selected_object == a.selected_object
    &&& if !is_multiple(a.selected_object) {
        &&& b.selection_type == SelectionType::Movement
        &&& b.light_selected == (match first {
            Duplicate::Model(_, light) => light,
            Duplicate::Brush(_) => a.light_selected,
        })
        &&& b.open_light_ui == opened
        &&& b.selection_box_visible == a.selection_box_visible
        &&& effects == seq![SelectionEffect::SetBoxesVisible(false), SelectionEffect::MoveBoxesFar]
    } else if copies.len() == 0 {
        b == a && effects == Seq::<SelectionEffect>::empty()
    } else {
        &&& b.selection_type == SelectionType::Movement
        &&& b.light_selected == (if copies.len() == 1 { copy_light(first) } else { None })
        &&& b.open_light_ui == opened
        &&& !b.selection_box_visible
        &&& effects == deselect_effects() + seq![
            SelectionEffect::SetBoxesVisible(false),
            SelectionEffect::MoveBoxesFar,
            SelectionEffect::SetArrowsVisible(true),
        ] + copies_effects(copies.drop_first())
    }
}

impl EditorSelection {
    /// Selects a copy from an empty selection.
    fn select_copy(&mut self, copy: Duplicate) -> (effects: Vec<SelectionEffect>)
        requires
            old(self).selected_object is None,
        ensures
            final(self).selected_object is Some,
            !is_multiple(final(self).selected_object),
            final(self).selection_type == SelectionType::Movement,
            final(self).light_selected == (match copy {
                Duplicate::Model(_, light) => light,
                Duplicate::Brush(_) => old(self).light_selected,
            }),
            final(self).open_light_ui == (if copy_light(copy) is Some { copy_light(copy) } else { old(self).open_light_ui }),
            final(self).selection_box_visible == old(self).selection_box_visible,
            effects@ == seq![SelectionEffect::SetBoxesVisible(false), SelectionEffect::MoveBoxesFar],
    {
        match copy {
            Duplicate::Brush(brush) => self.select_brush(brush),
            Duplicate::Model(model, light) => self.select_model(model, light),
        }
    }

    /// The selected items were copied, in order, to `copies` (see `duplicate_steps`).
    pub fn duplicated(&mut self, copies: &Vec<Duplicate>) -> (effects: Vec<SelectionEffect>)
        requires
            old(self).selected_object is Some,
            !is_multiple(old(self).selected_object) ==> copies@.len() == 1,
        ensures
            duplicate_steps(*old(self), *final(self), copies@, effects@),
    {
        let ghost a = *self;
        let original = self.selected_object.take();
        let multiple = match &original {
            Some(Selection::Multiple(_)) => true,
            _ => false,
        };
        let mut effects: Vec<SelectionEffect> = Vec::new();
        if !multiple {
            effects = self.select_copy(copies[0]);
        } else if copies.len() > 0 {
            let mut e0 = self.deselect();
            effects.append(&mut e0);
            let mut e1 = self.select_copy(copies[0]);
            effects.append(&mut e1);
            effects.push(SelectionEffect::SetArrowsVisible(true));
            let ghost light = self.light_selected;
            let ghost opened = self.open_light_ui;
            assert(copies@.subrange(1, 1) =~= Seq::<Duplicate>::empty());
            let mut i: usize = 1;
            while i < copies.len()
                invariant
                    1 <= i <= copies@.len(),
                    self.selected_object is Some,
                    self.selection_type == SelectionType::Movement,
                    !self.selection_box_visible,
                    self.light_selected == (if i == 1 { light } else { None }),
                    self.open_light_ui == opened,
                    effects@ == deselect_effects() + seq![
                        SelectionEffect::SetBoxesVisible(false),
                        SelectionEffect::MoveBoxesFar,
                        SelectionEffect::SetArrowsVisible(true),
                    ] + copies_effects(copies@.subrange(1, i as int)),
                decreases copies@.len() - i,
            {
                let ghost before = effects@;
                let mut e = match copies[i] {
                    Duplicate::Brush(brush) => self.select_or_append_brush(brush),
                    Duplicate::Model(model, light) => self.select_or_append_model(model, light),
                };
                effects.append(&mut e);
                effects.push(SelectionEffect::SetArrowsVisible(true));
                proof {
                    let s = copies@.subrange(1, i + 1);
                    assert(s.drop_last() =~= copies@.subrange(1, i as int));
                    assert(s.last() == copies@[i as int]);
                    assert(effects@ =~= before + later_copy_effects(copies@[i as int]));
                }
                i += 1;
            }
            assert(copies@.subrange(1, copies@.len() as int) =~= copies@.drop_first());
        }
        self.selected_object = original;
        effects
    }
}

/// Whether the world skips a frame while `freeze` frames are left to skip, and how many are
/// left after it.
pub open spec fn frozen_step(freeze: u32) -> (bool, u32) {
    if freeze > 0 { (true, (freeze - 1) as u32) } else { (false, freeze) }
}

/// Which of `frames` frames in a row the world skips, from `freeze` frames left to skip.
pub open spec fn frozen_frames(freeze: u32, frames: nat) -> Seq<bool>
    decreases frames,
{
    if frames == 0 {
        Seq::empty()
    } else {
        let (skip, left) = frozen_step(freeze);
        seq![skip] + frozen_frames(left, (frames - 1) as nat)
    }
}

/// Starts a frame of the world: while frames are left to skip (`freeze`), the frame is
/// skipped and one fewer is left. True when the frame is skipped.
pub fn frame_frozen(freeze: &mut u32) -> (skipped: bool)
    ensures
        (skipped, *final(freeze)) == frozen_step(*old(freeze)),
{
    if *freeze > 0 {
        *freeze -= 1;
        true
    } else {
        false
    }
}

/// Law: a world frozen for `freeze` frames skips exactly its next `freeze` frames, and none
/// after them.
pub proof fn law_freeze_skips_that_many_frames(freeze: u32, frames: nat)
    ensures
        frozen_frames(freeze, frames) == Seq::new(frames, |i: int| i < freeze),
    decreases frames,
{
    if frames > 0 {
        let (skip, left) = frozen_step(freeze);
        law_freeze_skips_that_many_frames(left, (frames - 1) as nat);
        assert(frozen_frames(freeze, frames) =~= Seq::new(frames, |i: int| i < freeze));
    } else {
        assert(frozen_frames(freeze, frames) =~= Seq::new(frames, |i: int| i < freeze));
    }
}

/// The items of a selection, in order: those of a multiple selection, or the single one.
pub open spec fn items_of(selected: Option<Selection>) -> Seq<Selection> {
    match selected {
        Some(Selection::Multiple(v)) => v@,
        Some(single) => seq![single],
        None => Seq::empty(),
    }
}

/// The selection holds several items together.
pub open spec fn is_multiple(selected: Option<Selection>) -> bool {
    selected matches Some(Selection::Multiple(_))
}

/// Models found on the screen (each with its first light), as items of a selection.
pub open spec fn model_items(models: Seq<(usize, Option<usize>)>) -> Seq<Selection> {
    models.map_values(|m: (usize, Option<usize>)| Selection::Model(m.0))
}

/// Brushes found on the screen, as items of a selection.
pub open spec fn brush_items(brushes: Seq<usize>) -> Seq<Selection> {
    brushes.map_values(|b: usize| Selection::Brush(b))
}

/// `b` is `a` with `items` added, one after the other, to its present selection, and no
/// light selected.
pub open spec fn all_appended(a: EditorSelection, b: EditorSelection, items: Seq<Selection>) -> bool {
    &&& is_multiple(b.selected_object)
    &&& items_of(b.selected_object) == items_of(a.selected_object) + items
    &&& b.light_selected is None
    &&& b.open_light_ui == a.open_light_ui
    &&& b.selection_type == a.selection_type
    &&& b.selection_box_visible == a.selection_box_visible
}

/// `b` is `a` with exactly `items` selected together for moving, no light selected and no
/// selection box; the light editor is open on `light` where there is one.
pub open spec fn selected_together(a: EditorSelection, b: EditorSelection, items: Seq<Selection>, light: Option<usize>) -> bool {
    &&& is_multiple(b.selected_object)
    &&& items_of(b.selected_object) == items
    &&& b.light_selected is None
    &&& b.selection_type == SelectionType::Movement
    &&& !b.selection_box_visible
    &&& b.open_light_ui == (if light is Some { light } else { a.open_light_ui })
}

/// `b` is what letting go of a selection box makes of `a`, with `effects` on the world,
/// where `models` (each with its first light) and `brushes` were found inside the box. A
/// single model is selected and the arrows shown; several models are selected together
/// once the selection is cleared. The brushes are then added to the models; with no model,
/// a single brush is selected (the arrows shown first), and several brushes are selected
/// together once the selection is cleared.
pub open spec fn box_steps(
    a: EditorSelection,
    b: EditorSelection,
    models: Seq<(usize, Option<usize>)>,
    brushes: Seq<usize>,
    effects: Seq<SelectionEffect>,
) -> bool {
    let n = models.len();
    let k = brushes.len();
    if n == 0 {
        if k == 0 {
            b == a && effects == Seq::<SelectionEffect>::empty()
        } else if k == 1 {
            exists|e: Seq<SelectionEffect>|
                #[trigger] brush_selected(a, b, brushes[0], e) && effects == seq![SelectionEffect::SetArrowsVisible(true)] + e
        } else {
            &&& selected_together(a, b, brush_items(brushes), None)
            &&& effects == deselect_effects() + seq![SelectionEffect::SetBoxesVisible(false), SelectionEffect::MoveBoxesFar]
        }
    } else if n == 1 {
        exists|mid: EditorSelection, e: Seq<SelectionEffect>|
            #[trigger] model_selected(a, mid, models[0].0, models[0].1, e) && effects == e.push(
                SelectionEffect::SetArrowsVisible(true),
            ) && if k == 0 {
                b == mid
            } else {
                all_appended(mid, b, brush_items(brushes))
            }
    } else {
        &&& selected_together(a, b, model_items(models) + brush_items(brushes), models[0].1)
        &&& effects == deselect_effects() + seq![SelectionEffect::SetBoxesVisible(false), SelectionEffect::MoveBoxesFar]
            + Seq::new((n - 1) as nat, |i: int| SelectionEffect::SetArrowsVisible(true))
    }
}

/// How far apart `a` and `b` are.
pub open spec fn distance(a: int, b: int) -> int {
    if a >= b { a - b } else { b - a }
}

/// The smaller of `a` and `b`.
pub open spec fn lesser(a: i32, b: i32) -> i32 {
    if a <= b { a } else { b }
}

/// The selection box drawn between the point where the mouse was pressed and where it is
/// now, as `(x, y, w, h)`; none while it is 32 pixels or less wide or high.
pub open spec fn box_rect(origin: (i32, i32), mouse: (i32, i32)) -> Option<(i32, i32, u32, u32)> {
    let w = distance(origin.0 as int, mouse.0 as int);
    let h = distance(origin.1 as int, mouse.1 as int);
    if w > 32 && h > 32 {
        Some((lesser(origin.0, mouse.0), lesser(origin.1, mouse.1), w as u32, h as u32))
    } else {
        None
    }
}

/// The selection box between `origin`, where the mouse was pressed, and `mouse` (see
/// `box_rect`).
pub fn selection_box_rect(origin: (i32, i32), mouse: (i32, i32)) -> (r: Option<(i32, i32, u32, u32)>)
    requires
        i32::MIN < origin.0 - mouse.0 <= i32::MAX,
        i32::MIN < origin.1 - mouse.1 <= i32::MAX,
    ensures
        r == box_rect(origin, mouse),
{
    let x = if origin.0 <= mouse.0 { origin.0 } else { mouse.0 };
    let y = if origin.1 <= mouse.1 { origin.1 } else { mouse.1 };
    let dx = origin.0 - mouse.0;
    let dy = origin.1 - mouse.1;
    let w: u32 = if dx < 0 { (-dx) as u32 } else { dx as u32 };
    let h: u32 = if dy < 0 { (-dy) as u32 } else { dy as u32 };
    if w > 32 && h > 32 {
        Some((x, y, w, h))
    } else {
        None
    }
}

/// Adding an item to a selection makes it a multiple one, with the item last.
proof fn lemma_appended_items(a: EditorSelection, b: EditorSelection, item: Selection)
    requires
        appended_to(a, b, item),
    ensures
        is_multiple(b.selected_object),
        items_of(b.selected_object) == items_of(a.selected_object).push(item),
{
    match a.selected_object {
        Some(Selection::Multiple(v)) => {},
        Some(single) => {
            assert(seq![single].push(item) =~= seq![single, item]);
        },
        None => {},
    }
}

impl EditorSelection {
    /// Adds the models `models[from..]` to the present selection, one after the other.
    fn append_models(&mut self, models: &Vec<(usize, Option<usize>)>, from: usize) -> (effects: Vec<SelectionEffect>)
        requires
            old(self).selected_object is Some,
            from < models@.len(),
        ensures
            all_appended(*old(self), *final(self), model_items(models@).skip(from as int)),
            effects@ == Seq::new((models@.len() - from) as nat, |i: int| SelectionEffect::SetArrowsVisible(true)),
    {
        let ghost a = *self;
        let mut effects: Vec<SelectionEffect> = Vec::new();
        let mut i = from;
        while i < models.len()
            invariant
                from <= i <= models@.len(),
                self.selected_object is Some,
                items_of(self.selected_object) == items_of(a.selected_object) + model_items(models@).subrange(from as int, i as int),
                i > from ==> is_multiple(self.selected_object) && self.light_selected is None,
                self.open_light_ui == a.open_light_ui,
                self.selection_type == a.selection_type,
                self.selection_box_visible == a.selection_box_visible,
                effects@ == Seq::new((i - from) as nat, |k: int| SelectionEffect::SetArrowsVisible(true)),
            decreases models@.len() - i,
        {
            let ghost before = *self;
            let mut e = self.select_or_append_model(models[i].0, models[i].1);
            proof {
                lemma_appended_items(before, *self, Selection::Model(models@[i as int].0));
                assert(model_items(models@).subrange(from as int, i + 1) =~= model_items(models@).subrange(
                    from as int,
                    i as int,
                ).push(Selection::Model(models@[i as int].0)));
            }
            effects.append(&mut e);
            assert(effects@ =~= Seq::new((i + 1 - from) as nat, |k: int| SelectionEffect::SetArrowsVisible(true)));
            i += 1;
        }
        assert(model_items(models@).subrange(from as int, models@.len() as int) =~= model_items(models@).skip(from as int));
        effects
    }

    /// Adds the brushes `brushes[from..]` to the present selection, one after the other.
    fn append_brushes(&mut self, brushes: &Vec<usize>, from: usize)
        requires
            old(self).selected_object is Some,
            from < brushes@.len(),
        ensures
            all_appended(*old(self), *final(self), brush_items(brushes@).skip(from as int)),
    {
        let ghost a = *self;
        let mut i = from;
        while i < brushes.len()
            invariant
                from <= i <= brushes@.len(),
                self.selected_object is Some,
                items_of(self.selected_object) == items_of(a.selected_object) + brush_items(brushes@).subrange(from as int, i as int),
                i > from ==> is_multiple(self.selected_object) && self.light_selected is None,
                self.open_light_ui == a.open_light_ui,
                self.selection_type == a.selection_type,
                self.selection_box_visible == a.selection_box_visible,
            decreases brushes@.len() - i,
        {
            let ghost before = *self;
            let _ = self.select_or_append_brush(brushes[i]);
            proof {
                lemma_appended_items(before, *self, Selection::Brush(brushes@[i as int]));
                assert(brush_items(brushes@).subrange(from as int, i + 1) =~= brush_items(brushes@).subrange(
                    from as int,
                    i as int,
                ).push(Selection::Brush(brushes@[i as int])));
            }
            i += 1;
        }
        assert(brush_items(brushes@).subrange(from as int, brushes@.len() as int) =~= brush_items(brushes@).skip(from as int));
    }

    /// A selection box was let go of with `models` (each with its first light) and
    /// `brushes` inside it (see `box_steps`).
    pub fn box_released(&mut self, models: &Vec<(usize, Option<usize>)>, brushes: &Vec<usize>) -> (effects: Vec<SelectionEffect>)
        ensures
            box_steps(*old(self), *final(self), models@, brushes@, effects@),
    {
        let ghost a = *self;
        let mut effects: Vec<SelectionEffect> = Vec::new();
        if models.len() == 0 {
            if brushes.len() == 1 {
                effects.push(SelectionEffect::SetArrowsVisible(true));
                let mut e = self.select_brush(brushes[0]);
                let ghost g = e@;
                effects.append(&mut e);
                assert(brush_selected(a, *self, brushes@[0], g));
            } else if brushes.len() > 1 {
                let mut e0 = self.deselect();
                effects.append(&mut e0);
                let mut e1 = self.select_brush(brushes[0]);
                effects.append(&mut e1);
                self.append_brushes(brushes, 1);
                proof {
                    assert(brush_items(brushes@) =~= seq![Selection::Brush(brushes@[0])] + brush_items(brushes@).skip(1));
                }
            }
        } else if models.len() == 1 {
            let mut e = self.select_model(models[0].0, models[0].1);
            let ghost mid = *self;
            let ghost g = e@;
            effects.append(&mut e);
            effects.push(SelectionEffect::SetArrowsVisible(true));
            if brushes.len() > 0 {
                self.append_brushes(brushes, 0);
                assert(brush_items(brushes@).skip(0) =~= brush_items(brushes@));
            }
            assert(model_selected(a, mid, models@[0].0, models@[0].1, g));
        } else {
            let mut e0 = self.deselect();
            effects.append(&mut e0);
            let mut e1 = self.select_model(models[0].0, models[0].1);
            effects.append(&mut e1);
            let mut e2 = self.append_models(models, 1);
            effects.append(&mut e2);
            proof {
                assert(model_items(models@) =~= seq![Selection::Model(models@[0].0)] + model_items(models@).skip(1));
            }
            if brushes.len() > 0 {
                self.append_brushes(brushes, 0);
                assert(brush_items(brushes@).skip(0) =~= brush_items(brushes@));
            }
            proof {
                assert(effects@ =~= deselect_effects() + seq![SelectionEffect::SetBoxesVisible(false), SelectionEffect::MoveBoxesFar]
                    + Seq::new((models@.len() - 1) as nat, |i: int| SelectionEffect::SetArrowsVisible(true)));
            }
        }
        effects
    }
}

/// A model's light indices once light `light` is removed from the scene's list of lights:
/// every later light moves down by one.
pub open spec fn lights_renumbered(lights: Seq<usize>, light: usize) -> Seq<usize> {
    lights.map_values(|i: usize| if i > light { (i - 1) as usize } else { i })
}

/// A model's light indices without the entries that refer to light `light`.
pub open spec fn lights_without(lights: Seq<usize>, light: usize) -> Seq<usize> {
    lights.filter(other_than(light))
}

/// The indices other than `light`.
pub open spec fn other_than(light: usize) -> spec_fn(usize) -> bool {
    |i: usize| i != light
}

/// Removes light `light` from a model whose lights are `lights` (indices into the scene's
/// list of lights), as the world does for each model when the light is removed from the
/// scene: every entry that refers to the light is dropped, and the entries that refer to
/// later lights are renumbered down by one. The other entries keep their order.
/// True when the model referred to the light.
pub fn remove_point_light_from_model(lights: &mut Vec<usize>, light: usize) -> (removed: bool)
    ensures
        removed == old(lights)@.contains(light),
        final(lights)@ == lights_renumbered(lights_without(old(lights)@, light), light),
{
    let mut kept: Vec<usize> = Vec::new();
    let mut found = false;
    let mut i: usize = 0;
    while i < lights.len()
        invariant
            i <= lights@.len(),
            kept@ == lights_renumbered(lights_without(lights@.subrange(0, i as int), light), light),
            found == exists|j: int| 0 <= j < i && #[trigger] lights@[j] == light,
        decreases lights@.len() - i,
    {
        let index = lights[i];
        let ghost prefix = lights@.subrange(0, i as int);
        proof {
            reveal(Seq::filter);
            assert(lights@.subrange(0, i + 1) =~= prefix.push(index));
            assert(prefix.push(index).drop_last() =~= prefix);
        }
        if index > light {
            kept.push(index - 1);
        } else if index < light {
            kept.push(index);
        } else {
            found = true;
        }
        proof {
            assert(kept@ =~= lights_renumbered(lights_without(prefix.push(index), light), light));
        }
        i += 1;
    }
    proof {
        assert(lights@.subrange(0, lights@.len() as int) =~= lights@);
        if old(lights)@.contains(light) {
            let j = choose|j: int| 0 <= j < old(lights)@.len() && old(lights)@[j] == light;
            assert(lights@[j] == light);
        }
    }
    *lights = kept;
    found
}

/// The renderable a collider refers to once renderable `removed` of its model is gone: a
/// later one moves down by one.
pub open spec fn renderable_renumbered(r: Option<usize>, removed: usize) -> Option<usize> {
    match r {
        Some(i) => if i > removed { Some((i - 1) as usize) } else { Some(i) },
        None => None,
    }
}

/// Updates the renderables that the colliders of a model refer to (`refs`, one per collider,
/// none where a collider refers to no renderable) once renderable `removed` of the model is
/// gone: the later ones move down by one, the others stay.
pub fn renderables_after_removal(refs: &mut Vec<Option<usize>>, removed: usize)
    ensures
        final(refs)@ == old(refs)@.map_values(|r: Option<usize>| renderable_renumbered(r, removed)),
{
    let mut i: usize = 0;
    while i < refs.len()
        invariant
            i <= refs@.len() == old(refs)@.len(),
            forall|j: int| 0 <= j < i ==> #[trigger] refs@[j] == renderable_renumbered(old(refs)@[j], removed),
            forall|j: int| i <= j < refs@.len() ==> #[trigger] refs@[j] == old(refs)@[j],
        decreases refs@.len() - i,
    {
        if let Some(r) = refs[i] {
            if r > removed {
                refs.set(i, Some(r - 1));
            }
        }
        i += 1;
    }
    assert(refs@ =~= old(refs)@.map_values(|r: Option<usize>| renderable_renumbered(r, removed)));
}

/// Something the editor removes from the world.
#[derive(Clone, Copy, Debug, PartialEq, Eq, Structural)]
pub enum Removal {
    Brush(usize),
    Model(usize),
}

/// A selection holds no nested multiple selection.
pub open spec fn flat_selection(s: Selection) -> bool {
    match s {
        Selection::Multiple(v) => forall|i: int| 0 <= i < v@.len() ==> !(#[trigger] v@[i] is Multiple),
        _ => true,
    }
}

/// What removing a single selection removes.
pub open spec fn removal_of(s: Selection) -> Removal {
    match s {
        Selection::Brush(b) => Removal::Brush(b),
        Selection::Model(m) => Removal::Model(m),
        Selection::Multiple(_) => Removal::Model(0),
    }
}

/// What deleting a selection removes, in order: the brush or model, or each of a multiple
/// selection's.
pub open spec fn removals_of(s: Selection) -> Seq<Removal> {
    match s {
        Selection::Multiple(v) => v@.map_values(|e: Selection| removal_of(e)),
        _ => seq![removal_of(s)],
    }
}

/// What deleting the selection removes (see `removals_of`).
pub fn removals(selected: &Selection) -> (r: Vec<Removal>)
    requires
        flat_selection(*selected),
    ensures
        r@ == removals_of(*selected),
{
    let mut r: Vec<Removal> = Vec::new();
    match selected {
        Selection::Brush(b) => {
            r.push(Removal::Brush(*b));
        },
        Selection::Model(m) => {
            r.push(Removal::Model(*m));
        },
        Selection::Multiple(v) => {
            let mut i: usize = 0;
            while i < v.len()
                invariant
                    *selected == Selection::Multiple(*v),
                    flat_selection(*selected),
                    i <= v@.len(),
                    r@ == v@.subrange(0, i as int).map_values(|e: Selection| removal_of(e)),
                decreases v@.len() - i,
            {
                let ghost before = r@;
                match &v[i] {
                    Selection::Brush(b) => r.push(Removal::Brush(*b)),
                    Selection::Model(m) => r.push(Removal::Model(*m)),
                    Selection::Multiple(_) => {
                        assert(!(v@[i as int] is Multiple));
                    },
                }
                proof {
                    assert(v@.subrange(0, i + 1).map_values(|e: Selection| removal_of(e)) =~= before.push(removal_of(v@[i as int])));
                }
                i += 1;
            }
            proof {
                assert(v@.subrange(0, v@.len() as int) =~= v@);
            }
        },
    }
    r
}

/// What the editor does each update for what is selected.
#[derive(Clone, Copy, Debug, PartialEq, Eq, Structural)]
pub enum SelectionAction {
    /// Give the selected brush the material picked in the material window.
    Retexture(usize),
    /// Put the moving arrows around a brush.
    ArrowsOnBrush(usize),
    /// Put the scaling boxes around a brush.
    BoxesOnBrush(usize),
    /// Put the moving arrows on a model.
    ArrowsOnModel(usize),
    /// Put the moving arrows around a multiple selection.
    ArrowsOnMultiple,
    Nothing,
}

/// The action for a selection: a brush is given a picked material before anything else; a
/// selection being moved gets arrows, and a brush being scaled gets boxes.
pub open spec fn selection_action_of(selected: Option<Selection>, selection_type: SelectionType, material_picked: bool) -> SelectionAction {
    match selected {
        Some(Selection::Brush(b)) => if material_picked {
            SelectionAction::Retexture(b)
        } else if selection_type == SelectionType::Movement {
            SelectionAction::ArrowsOnBrush(b)
        } else {
            SelectionAction::BoxesOnBrush(b)
        },
        Some(Selection::Model(m)) => if selection_type == SelectionType::Movement {
            SelectionAction::ArrowsOnModel(m)
        } else {
            SelectionAction::Nothing
        },
        Some(Selection::Multiple(_)) => if selection_type == SelectionType::Movement {
            SelectionAction::ArrowsOnMultiple
        } else {
            SelectionAction::Nothing
        },
        None => SelectionAction::Nothing,
    }
}

impl EditorSelection {
    /// The action for the present selection (see `selection_action_of`); `material_picked` is
    /// whether a material was picked since the last update.
    pub fn selection_action(&self, material_picked: bool) -> (a: SelectionAction)
        ensures
            a == selection_action_of(self.selected_object, self.selection_type, material_picked),
    {
        match &self.selected_object {
            Some(Selection::Brush(b)) => {
                if material_picked {
                    SelectionAction::Retexture(*b)
                } else {
                    match self.selection_type {
                        SelectionType::Movement => SelectionAction::ArrowsOnBrush(*b),
                        SelectionType::Scaling => SelectionAction::BoxesOnBrush(*b),
                    }
                }
            },
            Some(Selection::Model(m)) => match self.selection_type {
                SelectionType::Movement => SelectionAction::ArrowsOnModel(*m),
                SelectionType::Scaling => SelectionAction::Nothing,
            },
            Some(Selection::Multiple(_)) => match self.selection_type {
                SelectionType::Movement => SelectionAction::ArrowsOnMultiple,
                SelectionType::Scaling => SelectionAction::Nothing,
            },
            None => SelectionAction::Nothing,
        }
    }
}

impl InternalModels {
    /// Whether the editor may select the model: it is not one of the editor's own.
    pub fn can_be_selected(&self, model: usize) -> (b: bool)
        ensures
            b == !self.internal_ids@.contains(model),
    {
        let mut i: usize = 0;
        while i < self.internal_ids.len()
            invariant
                i <= self.internal_ids@.len(),
                forall|j: int| 0 <= j < i ==> self.internal_ids@[j] != model,
            decreases self.internal_ids@.len() - i,
        {
            if self.internal_ids[i] == model {
                return false;
            }
            i += 1;
        }
        true
    }

    /// The axis along which pressing on model `model` drags the selection, if it is one of
    /// the arrows or boxes, and whether it is on the positive side.
    pub fn drag_handle(&self, model: usize) -> (r: (Option<DragAxis>, Option<bool>))
        ensures
            r.0 == (if model == self.arrow_nx || model == self.arrow_px || model == self.box_nx || model == self.box_px {
                Some(DragAxis::X)
            } else if model == self.arrow_ny || model == self.arrow_py || model == self.box_ny || model == self.box_py {
                Some(DragAxis::Y)
            } else if model == self.arrow_nz || model == self.arrow_pz || model == self.box_nz || model == self.box_pz {
                Some(DragAxis::Z)
            } else {
                None
            }),
            r.1 == (if model == self.arrow_px || model == self.arrow_py || model == self.arrow_pz || model == self.box_px
                || model == self.box_py || model == self.box_pz {
                Some(true)
            } else if model == self.arrow_nx || model == self.arrow_ny || model == self.arrow_nz || model == self.box_nx
                || model == self.box_ny || model == self.box_nz {
                Some(false)
            } else {
                None
            }),
    {
        let axis = if model == self.arrow_nx || model == self.arrow_px || model == self.box_nx || model == self.box_px {
            Some(DragAxis::X)
        } else if model == self.arrow_ny || model == self.arrow_py || model == self.box_ny || model == self.box_py {
            Some(DragAxis::Y)
        } else if model == self.arrow_nz || model == self.arrow_pz || model == self.box_nz || model == self.box_pz {
            Some(DragAxis::Z)
        } else {
            None
        };
        let sign = if model == self.arrow_px || model == self.arrow_py || model == self.arrow_pz || model == self.box_px
            || model == self.box_py || model == self.box_pz {
            Some(true)
        } else if model == self.arrow_nx || model == self.arrow_ny || model == self.arrow_nz || model == self.box_nx
            || model == self.box_ny || model == self.box_nz {
            Some(false)
        } else {
            None
        };
        (axis, sign)
    }
}


/// Law: cycling the selection type twice gives it back.
pub proof fn law_cycle_twice(t: SelectionType)
    ensures
        cycled(cycled(t)) == t,
{
}

/// Law: selecting the selected brush again twice gives back the way it was manipulated
/// (moving or scaling), and keeps it selected.
pub proof fn law_reselect_brush_twice(
    a: EditorSelection,
    b: EditorSelection,
    c: EditorSelection,
    brush: usize,
    e1: Seq<SelectionEffect>,
    e2: Seq<SelectionEffect>,
)
    requires
        brush_of(a.selected_object) == Some(brush),
        brush_selected(a, b, brush, e1),
        brush_selected(b, c, brush, e2),
    ensures
        c.selection_type == a.selection_type,
        c.selected_object == a.selected_object,
{
}

/// Law: a brush that is not the selected one is selected for moving, alone.
pub proof fn law_new_brush_moves(a: EditorSelection, b: EditorSelection, brush: usize, e: Seq<SelectionEffect>)
    requires
        brush_of(a.selected_object) != Some(brush),
        brush_selected(a, b, brush, e),
    ensures
        b.selection_type == SelectionType::Movement,
        brush_of(b.selected_object) == Some(brush),
{
}

/// Law: with shift held and something selected, letting go of the mouse on a model the
/// editor may select (and not on a brush) adds that model to the selection: a multiple
/// selection of the items selected before, then the model, with no light selected and the
/// arrows shown.
pub proof fn law_shift_release_appends_model(
    a: EditorSelection,
    mid: EditorSelection,
    b: EditorSelection,
    brushes: usize,
    internal_ids: Seq<usize>,
    model: usize,
    renderable: Option<usize>,
    first_light: Option<usize>,
    e1: Seq<SelectionEffect>,
    e2: Seq<SelectionEffect>,
    effects: Seq<SelectionEffect>,
)
    requires
        release_steps(a, mid, b, brushes, internal_ids, model, renderable, true, first_light, e1, e2, effects),
        !(renderable is Some && model == brushes),
        !internal_ids.contains(model),
        a.selected_object is Some,
    ensures
        match a.selected_object {
            Some(Selection::Multiple(v)) => b.selected_object matches Some(Selection::Multiple(r)) && r@ == v@.push(
                Selection::Model(model),
            ),
            Some(single) => b.selected_object matches Some(Selection::Multiple(r)) && r@ == seq![single, Selection::Model(model)],
            None => false,
        },
        b.light_selected is None,
        b.selection_type == a.selection_type,
        effects == seq![SelectionEffect::SetArrowsVisible(true), SelectionEffect::SetArrowsVisible(true)],
{
    assert(effects =~= seq![SelectionEffect::SetArrowsVisible(true), SelectionEffect::SetArrowsVisible(true)]);
}

/// Law: without shift, letting go of the mouse on a model the editor may select (and not on
/// a brush) selects that model alone, with its first light.
pub proof fn law_release_selects_model(
    a: EditorSelection,
    mid: EditorSelection,
    b: EditorSelection,
    brushes: usize,
    internal_ids: Seq<usize>,
    model: usize,
    renderable: Option<usize>,
    first_light: Option<usize>,
    e1: Seq<SelectionEffect>,
    e2: Seq<SelectionEffect>,
    effects: Seq<SelectionEffect>,
)
    requires
        release_steps(a, mid, b, brushes, internal_ids, model, renderable, false, first_light, e1, e2, effects),
        !(renderable is Some && model == brushes),
        !internal_ids.contains(model),
    ensures
        b.selected_object == Some(Selection::Model(model)),
        b.light_selected == first_light,
        effects.last() == SelectionEffect::SetArrowsVisible(true),
{
}

/// Law: letting go of the mouse on a model the editor keeps for itself (and not on a brush)
/// changes nothing.
pub proof fn law_release_on_internal_model_changes_nothing(
    a: EditorSelection,
    mid: EditorSelection,
    b: EditorSelection,
    brushes: usize,
    internal_ids: Seq<usize>,
    model: usize,
    renderable: Option<usize>,
    shift: bool,
    first_light: Option<usize>,
    e1: Seq<SelectionEffect>,
    e2: Seq<SelectionEffect>,
    effects: Seq<SelectionEffect>,
)
    requires
        release_steps(a, mid, b, brushes, internal_ids, model, renderable, shift, first_light, e1, e2, effects),
        !(renderable is Some && model == brushes),
        internal_ids.contains(model),
    ensures
        b == a,
        effects.len() == 0,
{
}

/// Law: without shift, letting go of the mouse on a brush of the brushes model, which the
/// editor keeps for itself, selects that brush alone (or switches how the selected brush is
/// manipulated) and shows the arrows.
pub proof fn law_release_selects_brush(
    a: EditorSelection,
    mid: EditorSelection,
    b: EditorSelection,
    brushes: usize,
    internal_ids: Seq<usize>,
    renderable: usize,
    first_light: Option<usize>,
    e1: Seq<SelectionEffect>,
    e2: Seq<SelectionEffect>,
    effects: Seq<SelectionEffect>,
)
    requires
        release_steps(a, mid, b, brushes, internal_ids, brushes, Some(renderable), false, first_light, e1, e2, effects),
        internal_ids.contains(brushes),
    ensures
        b.selected_object == Some(Selection::Brush(renderable)),
        b.light_selected == a.light_selected,
        effects.last() == SelectionEffect::SetArrowsVisible(true),
{
}

/// The items `items` are the found models (by index), then the found brushes.
pub open spec fn models_then_brushes(items: Seq<Selection>, models: Seq<(usize, Option<usize>)>, brushes: Seq<usize>) -> bool {
    &&& items.len() == models.len() + brushes.len()
    &&& forall|i: int| 0 <= i < models.len() ==> #[trigger] items[i] == Selection::Model(models[i].0)
    &&& forall|i: int| 0 <= i < brushes.len() ==> #[trigger] items[models.len() + i] == Selection::Brush(brushes[i])
}

/// Law: letting go of a selection box over several models selects exactly the models found,
/// in order, then the brushes found, for moving, with no light selected; over no model and
/// several brushes, exactly the brushes; over one model, that model, followed by any brushes.
pub proof fn law_box_selects_what_it_found(
    a: EditorSelection,
    b: EditorSelection,
    models: Seq<(usize, Option<usize>)>,
    brushes: Seq<usize>,
    effects: Seq<SelectionEffect>,
)
    requires
        box_steps(a, b, models, brushes, effects),
    ensures
        models.len() >= 2 || (models.len() == 0 && brushes.len() >= 2) ==> {
            &&& b.selected_object matches Some(Selection::Multiple(r)) && models_then_brushes(r@, models, brushes)
            &&& b.light_selected is None
            &&& b.selection_type == SelectionType::Movement
        },
        models.len() == 1 && brushes.len() == 0 ==> b.selected_object == Some(Selection::Model(models[0].0)),
        models.len() == 1 && brushes.len() > 0 ==> (b.selected_object matches Some(Selection::Multiple(r))
            && models_then_brushes(r@, models, brushes)),
        models.len() == 0 && brushes.len() == 1 ==> b.selected_object == Some(Selection::Brush(brushes[0])),
        models.len() == 0 && brushes.len() == 0 ==> b == a,
{
    let n = models.len();
    let k = brushes.len();
    if n >= 2 || (n == 0 && k >= 2) {
        let items = b.selected_object->0->Multiple_0@;
        assert(items == model_items(models) + brush_items(brushes));
        assert forall|i: int| 0 <= i < k implies #[trigger] items[n + i] == Selection::Brush(brushes[i]) by {
            assert(items[n + i] == brush_items(brushes)[i]);
        }
    }
    if n == 1 && k > 0 {
        let mid = choose|mid: EditorSelection, e: Seq<SelectionEffect>|
            #[trigger] model_selected(a, mid, models[0].0, models[0].1, e) && effects == e.push(SelectionEffect::SetArrowsVisible(true))
                && all_appended(mid, b, brush_items(brushes));
        let items = b.selected_object->0->Multiple_0@;
        assert(items == seq![Selection::Model(models[0].0)] + brush_items(brushes));
        assert forall|i: int| 0 <= i < k implies #[trigger] items[n + i] == Selection::Brush(brushes[i]) by {
            assert(items[n + i] == brush_items(brushes)[i]);
        }
    }
}

/// Law: copying the selected items leaves the items selected before the copy selected.
pub proof fn law_copies_keep_the_selection(
    a: EditorSelection,
    b: EditorSelection,
    copies: Seq<Duplicate>,
    effects: Seq<SelectionEffect>,
)
    requires
        duplicate_steps(a, b, copies, effects),
    ensures
        b.selected_object == a.selected_object,
        copies.len() > 0 ==> b.selection_type == SelectionType::Movement,
{
}

/// Law: what the editor does each frame with its selection: a picked material retextures a
/// selected brush; otherwise, while moving, arrows are put on a selected brush, model or
/// group, and while scaling, boxes on a selected brush; nothing is done with no selection.
pub proof fn law_selection_actions(selected: Option<Selection>, t: SelectionType, picked: bool, brush: usize, model: usize)
    ensures
        selected == Some(Selection::Brush(brush)) && picked ==> selection_action_of(selected, t, picked) == SelectionAction::Retexture(
            brush,
        ),
        selected == Some(Selection::Brush(brush)) && !picked && t == SelectionType::Movement ==> selection_action_of(selected, t, picked)
            == SelectionAction::ArrowsOnBrush(brush),
        selected == Some(Selection::Brush(brush)) && !picked && t == SelectionType::Scaling ==> selection_action_of(selected, t, picked)
            == SelectionAction::BoxesOnBrush(brush),
        selected == Some(Selection::Model(model)) && t == SelectionType::Movement ==> selection_action_of(selected, t, picked)
            == SelectionAction::ArrowsOnModel(model),
        is_multiple(selected) && t == SelectionType::Movement ==> selection_action_of(selected, t, picked)
            == SelectionAction::ArrowsOnMultiple,
        selected is None ==> selection_action_of(selected, t, picked) == SelectionAction::Nothing,
        brush_of(selected) is None && t == SelectionType::Scaling ==> selection_action_of(selected, t, picked) == SelectionAction::Nothing,
{
}

/// Law: deleting a selection removes each of its items once, in order: a brush item removes
/// that brush and a model item that model.
pub proof fn law_removals_follow_items(s: Selection)
    requires
        flat_selection(s),
    ensures
        match s {
            Selection::Multiple(v) => removals_of(s).len() == v@.len() && forall|i: int|
                0 <= i < v@.len() ==> #[trigger] removals_of(s)[i] == match v@[i] {
                    Selection::Brush(b) => Removal::Brush(b),
                    Selection::Model(m) => Removal::Model(m),
                    Selection::Multiple(_) => removals_of(s)[i],
                },
            Selection::Brush(b) => removals_of(s) == seq![Removal::Brush(b)],
            Selection::Model(m) => removals_of(s) == seq![Removal::Model(m)],
        },
{
}

/// Law: removing light `light` from a model leaves it referring to every light it referred
/// to but `light`, each later light by its index one lower, and to nothing else.
pub proof fn law_light_removal_keeps_the_others(lights: Seq<usize>, light: usize, x: usize)
    ensures
        x < light ==> (lights_renumbered(lights_without(lights, light), light).contains(x) <==> lights.contains(x)),
        x >= light && x < usize::MAX ==> (lights_renumbered(lights_without(lights, light), light).contains(x)
            <==> lights.contains((x + 1) as usize)),
{
    broadcast use vstd::seq_lib::group_filter_ensures;

    let kept = lights_without(lights, light);
    let out = lights_renumbered(kept, light);
    let keep = other_than(light);
    if out.contains(x) {
        let k = choose|k: int| 0 <= k < out.len() && out[k] == x;
        let e = kept[k];
        assert(kept.contains(e));
        lights.lemma_filter_contains_rev(keep, e);
        assert(e != light);
    }
    if x < light && lights.contains(x) {
        let k = choose|k: int| 0 <= k < lights.len() && lights[k] == x;
        assert(keep(lights[k]));
        assert(kept.contains(x));
        let m = choose|m: int| 0 <= m < kept.len() && kept[m] == x;
        assert(out[m] == x);
    }
    if x >= light && x < usize::MAX && lights.contains((x + 1) as usize) {
        let k = choose|k: int| 0 <= k < lights.len() && lights[k] == (x + 1) as usize;
        assert(keep(lights[k]));
        assert(kept.contains((x + 1) as usize));
        let m = choose|m: int| 0 <= m < kept.len() && kept[m] == (x + 1) as usize;
        assert(out[m] == x);
    }
}

/// Law: adding a model or a brush to a present selection makes a multiple selection of the
/// items selected before, then that item, with no light selected.
pub proof fn law_append_to_selection(a: EditorSelection, b: EditorSelection, item: Selection)
    requires
        appended_to(a, b, item),
    ensures
        b.selected_object matches Some(Selection::Multiple(r)) && r@ == (match a.selected_object {
            Some(Selection::Multiple(v)) => v@,
            Some(single) => seq![single],
            None => Seq::empty(),
        }).push(item),
        b.light_selected is None,
{
    lemma_appended_items(a, b, item);
}

/// Law: deselecting leaves nothing selected: no object, no light, no selection box.
pub proof fn law_deselect_clears(a: EditorSelection, b: EditorSelection)
    requires
        deselected(a, b),
    ensures
        b.selected_object is None,
        b.light_selected is None,
        !b.selection_box_visible,
{
}

} // verus!
