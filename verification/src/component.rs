use vstd::prelude::*;

verus! {

/// How far a door has opened: it takes `open_time` updates to open fully, and as many to
/// close. Its size and position are kept by the application.
#[derive(Clone, Copy, Debug, PartialEq, Eq, Structural)]
pub struct DoorState {
    pub open_time: u32,
    pub open_progress: u32,
    pub opened: bool,
}

/// Where an update puts the door's model.
#[derive(Clone, Copy, Debug, PartialEq, Eq, Structural)]
pub enum DoorPlacement {
    /// Left where it is.
    Keep,
    /// Back at the door's origin.
    Rest,
    /// Above the origin, by the height times `progress / open_time`.
    Raised(u32),
}

/// What an update of a door asks of the application.
#[derive(Clone, Copy, Debug, PartialEq, Eq, Structural)]
pub struct DoorUpdate {
    /// The door was closed: its origin is taken from its model's position now.
    pub record_origin: bool,
    pub placement: DoorPlacement,
}

/// The door after an update, and what the update asks: while the game runs, a door with the
/// player within its radius opens by one step up to `open_time`, and otherwise closes by one
/// step; a door that has closed fully goes back to rest. While the game does not run, an
/// opened door is put back to rest at once.
pub open spec fn door_updated(d: DoorState, game_logic: bool, player_near: bool) -> (DoorState, DoorUpdate) {
    let record_origin = !d.opened;
    if game_logic {
        let (progress, opened, rest) = if player_near {
            (if d.open_progress < d.open_time { (d.open_progress + 1) as u32 } else { d.open_progress }, true, false)
        } else if d.open_progress > 0 {
            ((d.open_progress - 1) as u32, d.opened, false)
        } else {
            (d.open_progress, false, true)
        };
        let placement = if progress > 0 {
            DoorPlacement::Raised(progress)
        } else if rest {
            DoorPlacement::Rest
        } else {
            DoorPlacement::Keep
        };
        (DoorState { open_time: d.open_time, open_progress: progress, opened }, DoorUpdate { record_origin, placement })
    } else if d.opened {
        (DoorState { open_time: d.open_time, open_progress: 0, opened: false }, DoorUpdate { record_origin, placement: DoorPlacement::Rest })
    } else {
        (d, DoorUpdate { record_origin, placement: DoorPlacement::Keep })
    }
}

impl DoorState {
    pub fn new(open_time: u32) -> (d: Self)
        ensures
            d == (DoorState { open_time, open_progress: 0, opened: false }),
    {
        Self { open_time, open_progress: 0, opened: false }
    }

    /// One update of the door (see `door_updated`); `player_near` is whether the player is
    /// within the door's radius.
    pub fn update(&mut self, game_logic: bool, player_near: bool) -> (u: DoorUpdate)
        ensures
            (*final(self), u) == door_updated(*old(self), game_logic, player_near),
    {
        let record_origin = !self.opened;
        if game_logic {
            let mut rest = false;
            if player_near {
                if self.open_progress < self.open_time {
                    self.open_progress += 1;
                }
                if !self.opened {
                    self.opened = true;
                }
            } else {
                if self.open_progress > 0 {
                    self.open_progress -= 1;
                } else {
                    self.opened = false;
                    rest = true;
                }
            }

            let placement = if self.open_progress > 0 {
                DoorPlacement::Raised(self.open_progress)
            } else if rest {
                DoorPlacement::Rest
            } else {
                DoorPlacement::Keep
            };
            DoorUpdate { record_origin, placement }
        } else {
            if self.opened {
                self.opened = false;
                self.open_progress = 0;
                DoorUpdate { record_origin, placement: DoorPlacement::Rest }
            } else {
                DoorUpdate { record_origin, placement: DoorPlacement::Keep }
            }
        }
    }
}

/// Law: a door never opens further than its opening time, and an update moves it by at most
/// one step.
pub proof fn law_door_progress_bounded(d: DoorState, game_logic: bool, player_near: bool)
    requires
        d.open_progress <= d.open_time,
    ensures
        door_updated(d, game_logic, player_near).0.open_progress <= d.open_time,
        door_updated(d, game_logic, player_near).0.open_time == d.open_time,
        game_logic ==> door_updated(d, game_logic, player_near).0.open_progress <= d.open_progress + 1,
        game_logic ==> door_updated(d, game_logic, player_near).0.open_progress + 1 >= d.open_progress,
{
}

/// Law: with the player near, a door is fully open after as many updates as its opening time.
pub proof fn law_door_opens_fully(d: DoorState, n: nat)
    requires
        d.open_progress <= d.open_time,
        n >= d.open_time - d.open_progress,
    ensures
        door_after(d, n).open_progress == d.open_time,
    decreases n,
{
    if n > 0 {
        law_door_opens_fully(door_updated(d, true, true).0, (n - 1) as nat);
    }
}

/// The door after `n` updates of the running game with the player near.
pub open spec fn door_after(d: DoorState, n: nat) -> DoorState
    decreases n,
{
    if n == 0 {
        d
    } else {
        door_after(door_updated(d, true, true).0, (n - 1) as nat)
    }
}

/// Where the player stands toward a trigger's brush, and so which of the trigger's actions
/// an update runs.
#[derive(Clone, Copy, Debug, PartialEq, Eq, Structural)]
pub enum TriggerPhase {
    Enter,
    Inside,
    Exit,
    Outside,
}

/// The phase of a trigger's update: entering or leaving the brush, or staying inside or
/// outside it. `player_within` records whether the player was inside.
pub fn trigger_phase(player_within: &mut bool, within_brush: bool) -> (phase: TriggerPhase)
    ensures
        *final(player_within) == within_brush,
        phase == (if *old(player_within) {
            if within_brush { TriggerPhase::Inside } else { TriggerPhase::Exit }
        } else {
            if within_brush { TriggerPhase::Enter } else { TriggerPhase::Outside }
        }),
{
    if *player_within {
        if !within_brush {
            *player_within = false;
            TriggerPhase::Exit
        } else {
            TriggerPhase::Inside
        }
    } else {
        if within_brush {
            *player_within = true;
            TriggerPhase::Enter
        } else {
            TriggerPhase::Outside
        }
    }
}

/// What is wrong with the model a trigger is put on.
#[derive(Clone, Copy, Debug, PartialEq, Eq, Structural)]
pub enum TriggerProblem {
    /// The model has no renderable, or more than one.
    NotSingle,
    /// The model's one renderable is not a brush.
    NotBrush,
}

/// What is wrong with the model a trigger is put on, which has `renderables` renderables,
/// the first of them a brush or not: a trigger is expected on a model with a single brush.
pub fn trigger_problem(renderables: usize, first_is_brush: bool) -> (p: Option<TriggerProblem>)
    ensures
        p == (if renderables != 1 {
            Some(TriggerProblem::NotSingle)
        } else if !first_is_brush {
            Some(TriggerProblem::NotBrush)
        } else {
            None
        }),
{
    if renderables != 1 {
        Some(TriggerProblem::NotSingle)
    } else if !first_is_brush {
        Some(TriggerProblem::NotBrush)
    } else {
        None
    }
}

} // verus!
