use vstd::prelude::*;

use crate::world::PlayerMovementMode;

verus! {

/// How the camera is controlled: in first person, with the cursor locked to the window or
/// not, or freely in the editor.
#[derive(Clone, Copy, Debug, PartialEq, Eq, Structural)]
pub enum CameraControlScheme {
    FirstPerson(bool),
    Editor,
}

/// How the cursor is held by the window.
#[derive(Clone, Copy, Debug, PartialEq, Eq, Structural)]
pub enum CursorGrab {
    Free,
    Confined,
}

/// Everything that switching between playing and editing changes.
#[derive(Clone, Copy, Debug, PartialEq, Eq, Structural)]
pub struct ModeSwitch {
    pub scheme: CameraControlScheme,
    pub cursor_grab: CursorGrab,
    pub cursor_visible: bool,
    pub movement: PlayerMovementMode,
    pub editor_active: bool,
    pub game_logic: bool,
    pub play_mode: bool,
    pub deselect: bool,
}

/// The switch out of `scheme`: from playing to the editor, with a free and visible cursor,
/// the player following the camera and the game logic stopped; or from the editor to
/// playing in first person, with the cursor locked and hidden, and the selection dropped.
pub open spec fn switched(scheme: CameraControlScheme) -> ModeSwitch {
    match scheme {
        CameraControlScheme::FirstPerson(_) => ModeSwitch {
            scheme: CameraControlScheme::Editor,
            cursor_grab: CursorGrab::Free,
            cursor_visible: true,
            movement: PlayerMovementMode::FollowCamera,
            editor_active: true,
            game_logic: false,
            play_mode: false,
            deselect: false,
        },
        CameraControlScheme::Editor => ModeSwitch {
            scheme: CameraControlScheme::FirstPerson(true),
            cursor_grab: CursorGrab::Confined,
            cursor_visible: false,
            movement: PlayerMovementMode::FirstPerson,
            editor_active: false,
            game_logic: true,
            play_mode: true,
            deselect: true,
        },
    }
}

impl CameraControlScheme {
    /// What switching between playing and editing does (see `switched`).
    pub fn toggled(&self) -> (s: ModeSwitch)
        ensures
            s == switched(*self),
    {
        match self {
            CameraControlScheme::FirstPerson(_) => ModeSwitch {
                scheme: CameraControlScheme::Editor,
                cursor_grab: CursorGrab::Free,
                cursor_visible: true,
                movement: PlayerMovementMode::FollowCamera,
                editor_active: true,
                game_logic: false,
                play_mode: false,
                deselect: false,
            },
            CameraControlScheme::Editor => ModeSwitch {
                scheme: CameraControlScheme::FirstPerson(true),
                cursor_grab: CursorGrab::Confined,
                cursor_visible: false,
                movement: PlayerMovementMode::FirstPerson,
                editor_active: false,
                game_logic: true,
                play_mode: true,
                deselect: true,
            },
        }
    }

    /// Escape releases a cursor locked in first person; true when it did, and the cursor is
    /// then to be freed and shown.
    pub fn on_escape(&mut self) -> (released: bool)
        ensures
            released == (*old(self) == CameraControlScheme::FirstPerson(true)),
            *final(self) == (if released { CameraControlScheme::FirstPerson(false) } else { *old(self) }),
    {
        if let CameraControlScheme::FirstPerson(locked) = self {
            if *locked {
                *locked = false;
                return true;
            }
        }
        false
    }

    /// A mouse press locks the cursor again in first person; true when it did, and the cursor
    /// is then to be confined and hidden.
    pub fn on_mouse_pressed(&mut self) -> (locked: bool)
        ensures
            locked == (*old(self) == CameraControlScheme::FirstPerson(false)),
            *final(self) == (if locked { CameraControlScheme::FirstPerson(true) } else { *old(self) }),
    {
        if let CameraControlScheme::FirstPerson(locked) = self {
            if !*locked {
                *locked = true;
                return true;
            }
        }
        false
    }

    /// Whether the right mouse button turns the view, which it does in the editor.
    pub fn right_button_drags_view(&self, right_button: bool) -> (b: bool)
        ensures
            b == (*self == CameraControlScheme::Editor && right_button),
    {
        match self {
            CameraControlScheme::Editor => right_button,
            _ => false,
        }
    }
}

/// Law: switching to the editor and back plays in first person with the cursor locked,
/// and switching back to the editor and again gives the editor.
pub proof fn law_switch_twice(scheme: CameraControlScheme)
    ensures
        switched(switched(scheme).scheme).scheme == (match scheme {
            CameraControlScheme::Editor => CameraControlScheme::Editor,
            CameraControlScheme::FirstPerson(_) => CameraControlScheme::FirstPerson(true),
        }),
{
}

} // verus!
