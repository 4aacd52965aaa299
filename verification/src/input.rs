use std::collections::HashMap;
use vstd::prelude::*;

verus! {

broadcast use vstd::std_specs::hash::group_hash_axioms;

/// The state of a key or mouse button.
#[derive(Clone, Copy, Debug, PartialEq, Eq, Structural)]
pub enum KeyState {
    Pressed,
    Released,
    JustPressed,
}

/// A key or a mouse button, as the window manager's events name it, mapped to a number.
pub type KeyCode = u64;

/// What `update` makes of a state: a key that was just pressed is now held.
pub open spec fn settled(state: KeyState) -> KeyState {
    if state == KeyState::JustPressed {
        KeyState::Pressed
    } else {
        state
    }
}

/// The state of `key` in `states`; a key that was never seen counts as released.
pub open spec fn state_of(states: Map<KeyCode, KeyState>, key: KeyCode) -> KeyState {
    if states.contains_key(key) {
        states[key]
    } else {
        KeyState::Released
    }
}

/// Every state of the map settled.
pub open spec fn all_settled(states: Map<KeyCode, KeyState>) -> Map<KeyCode, KeyState> {
    states.map_values(|s: KeyState| settled(s))
}

/// Input manager, must be updated externally with `on_key_released` and `on_key_pressed`.
/// `update` must be called every frame.
pub struct Input {
    pub keys: HashMap<KeyCode, KeyState>,
    pub mouse_buttons: HashMap<KeyCode, KeyState>,
    pub needs_update: bool,
}

fn settle_all(states: &HashMap<KeyCode, KeyState>) -> (r: HashMap<KeyCode, KeyState>)
    ensures
        r@ == all_settled(states@),
{
    let mut r: HashMap<KeyCode, KeyState> = HashMap::new();
    for entry in it: states.iter()
        invariant
            it.seq() == vstd::std_specs::iter::IteratorSpec::remaining(&vstd::std_specs::hash::spec_hash_map_iter(states)),
            forall|k: KeyCode| #[trigger] r@.contains_key(k) ==> states@.contains_key(k) && r@[k] == settled(states@[k]),
            forall|j: int| 0 <= j < it.index() ==> r@.contains_key(*(#[trigger] it.seq()[j]).0),
    {
        let (k, v) = entry;
        let s = if *v == KeyState::JustPressed {
            KeyState::Pressed
        } else {
            *v
        };
        r.insert(*k, s);
    }
    assert(r@ =~= all_settled(states@));
    r
}

impl Input {
    pub fn new() -> (input: Self)
        ensures
            input.keys@ == Map::<KeyCode, KeyState>::empty(),
            input.mouse_buttons@ == Map::<KeyCode, KeyState>::empty(),
            !input.needs_update,
    {
        Input { keys: HashMap::new(), mouse_buttons: HashMap::new(), needs_update: false }
    }

    /// Call when a key is pressed in your window manager loop
    pub fn on_key_pressed(&mut self, key: KeyCode)
        ensures
            final(self).keys@ == old(self).keys@.insert(key, KeyState::JustPressed),
            final(self).mouse_buttons@ == old(self).mouse_buttons@,
            final(self).needs_update,
    {
        self.keys.insert(key, KeyState::JustPressed);
        self.needs_update = true;
    }

    /// Call when a key is released in your window manager loop
    pub fn on_key_released(&mut self, key: KeyCode)
        ensures
            final(self).keys@ == old(self).keys@.insert(key, KeyState::Released),
            final(self).mouse_buttons@ == old(self).mouse_buttons@,
            final(self).needs_update == old(self).needs_update,
    {
        self.keys.insert(key, KeyState::Released);
    }

    pub fn on_mouse_button_pressed(&mut self, button: KeyCode)
        ensures
            final(self).mouse_buttons@ == old(self).mouse_buttons@.insert(button, KeyState::JustPressed),
            final(self).keys@ == old(self).keys@,
            final(self).needs_update,
    {
        self.mouse_buttons.insert(button, KeyState::JustPressed);
        self.needs_update = true;
    }

    pub fn on_mouse_button_released(&mut self, button: KeyCode)
        ensures
            final(self).mouse_buttons@ == old(self).mouse_buttons@.insert(button, KeyState::Released),
            final(self).keys@ == old(self).keys@,
            final(self).needs_update == old(self).needs_update,
    {
        self.mouse_buttons.insert(button, KeyState::Released);
    }

    /// Call every frame after this struct is done being used, resets `JustPressed` keystates
    /// to `Pressed`
    pub fn update(&mut self)
        ensures
            old(self).needs_update ==> {
                &&& final(self).keys@ == all_settled(old(self).keys@)
                &&& final(self).mouse_buttons@ == all_settled(old(self).mouse_buttons@)
                &&& !final(self).needs_update
            },
            !old(self).needs_update ==> {
                &&& final(self).keys@ == old(self).keys@
                &&& final(self).mouse_buttons@ == old(self).mouse_buttons@
                &&& !final(self).needs_update
            },
    {
        if self.needs_update {
            self.keys = settle_all(&self.keys);
            self.mouse_buttons = settle_all(&self.mouse_buttons);
            self.needs_update = false;
        }
    }

    /// Return true if `key` is `Pressed` or `JustPressed`
    pub fn get_key_pressed(&self, key: KeyCode) -> (b: bool)
        ensures
            b == (state_of(self.keys@, key) == KeyState::JustPressed || state_of(self.keys@, key) == KeyState::Pressed),
    {
        if let Some(state) = self.keys.get(&key) {
            return *state == KeyState::JustPressed || *state == KeyState::Pressed;
        }
        false
    }

    /// Return true only if `key` is `JustPressed`
    pub fn get_key_just_pressed(&self, key: KeyCode) -> (b: bool)
        ensures
            b == (state_of(self.keys@, key) == KeyState::JustPressed),
    {
        if let Some(state) = self.keys.get(&key) {
            return *state == KeyState::JustPressed;
        }
        false
    }

    /// Return true only if `key` is `Released`
    pub fn get_key_released(&self, key: KeyCode) -> (b: bool)
        ensures
            b == (state_of(self.keys@, key) == KeyState::Released),
    {
        if let Some(state) = self.keys.get(&key) {
            return *state == KeyState::Released;
        }
        true
    }

    pub fn get_mouse_button_pressed(&self, button: KeyCode) -> (b: bool)
        ensures
            b == (state_of(self.mouse_buttons@, button) != KeyState::Released),
    {
        *self.mouse_buttons.get(&button).unwrap_or(&KeyState::Released) != KeyState::Released
    }

    pub fn get_mouse_button_just_pressed(&self, button: KeyCode) -> (b: bool)
        ensures
            b == (state_of(self.mouse_buttons@, button) == KeyState::JustPressed),
    {
        *self.mouse_buttons.get(&button).unwrap_or(&KeyState::Released) == KeyState::JustPressed
    }

    pub fn get_mouse_button_released(&self, button: KeyCode) -> (b: bool)
        ensures
            b == (state_of(self.mouse_buttons@, button) == KeyState::Released),
    {
        *self.mouse_buttons.get(&button).unwrap_or(&KeyState::Released) == KeyState::Released
    }
}


/// Law: a key that was just pressed reads as pressed and just pressed, and not released.
pub proof fn law_press(states: Map<KeyCode, KeyState>, key: KeyCode)
    ensures
        state_of(states.insert(key, KeyState::JustPressed), key) == KeyState::JustPressed,
{
}

/// Law: `update` turns a key that was just pressed into a held one: still pressed, no longer
/// just pressed.
pub proof fn law_press_then_update(states: Map<KeyCode, KeyState>, key: KeyCode)
    ensures
        state_of(all_settled(states.insert(key, KeyState::JustPressed)), key) == KeyState::Pressed,
{
}

/// Law: a released key reads as released until it is pressed again, whatever `update` does.
pub proof fn law_release(states: Map<KeyCode, KeyState>, key: KeyCode)
    ensures
        state_of(states.insert(key, KeyState::Released), key) == KeyState::Released,
        state_of(all_settled(states.insert(key, KeyState::Released)), key) == KeyState::Released,
{
}

/// Law: a key that was never pressed or released reads as released.
pub proof fn law_unseen_key_released(key: KeyCode)
    ensures
        state_of(Map::<KeyCode, KeyState>::empty(), key) == KeyState::Released,
{
}

/// Law: an event about one key leaves every other key as it was.
pub proof fn law_other_keys_unchanged(states: Map<KeyCode, KeyState>, key: KeyCode, other: KeyCode, s: KeyState)
    requires
        key != other,
    ensures
        state_of(states.insert(key, s), other) == state_of(states, other),
{
}

/// Law: `update` twice is `update` once.
pub proof fn law_update_idempotent(states: Map<KeyCode, KeyState>)
    ensures
        all_settled(all_settled(states)) == all_settled(states),
{
    assert(all_settled(all_settled(states)) =~= all_settled(states));
}

/// Law: `update` changes no key's state but a just pressed one, and forgets no key.
pub proof fn law_update_keeps_keys(states: Map<KeyCode, KeyState>, key: KeyCode)
    ensures
        state_of(states, key) != KeyState::JustPressed ==> state_of(all_settled(states), key) == state_of(states, key),
        state_of(all_settled(states), key) != KeyState::JustPressed,
{
}

/// Law: a key reads as pressed exactly when it does not read as released.
pub proof fn law_pressed_iff_not_released(states: Map<KeyCode, KeyState>, key: KeyCode)
    ensures
        (state_of(states, key) == KeyState::JustPressed || state_of(states, key) == KeyState::Pressed) <==> !(state_of(states, key)
            == KeyState::Released),
{
}

} // verus!
