use vstd::prelude::*;

verus! {

/// The side an entity fights on.
#[derive(Clone, Copy, Debug, PartialEq, Eq, Structural)]
pub struct Team {
    team_id: u32,
}

impl Team {
    pub closed spec fn id(&self) -> u32 {
        self.team_id
    }

    pub fn new(team_id: u32) -> (r: Self)
        ensures
            r.id() == team_id,
    {
        Team { team_id }
    }

    pub fn team_id(&self) -> (r: u32)
        ensures
            r == self.id(),
    {
        self.team_id
    }
}

impl Default for Team {
    fn default() -> (r: Self)
        ensures
            r.id() == 0,
    {
        Team { team_id: 0 }
    }
}

/// Hit points: the most an entity can have and what it has now.
#[derive(Clone, Copy, Debug, PartialEq, Eq, Structural)]
pub struct Health {
    pub max_health: i32,
    pub current_health: i32,
}

impl Health {
    /// Full health of `health` points.
    pub fn new(health: i32) -> (r: Self)
        ensures
            r.max_health == health,
            r.current_health == health,
    {
        Health { max_health: health, current_health: health }
    }
}

impl Default for Health {
    fn default() -> (r: Self)
        ensures
            r.max_health == 0,
            r.current_health == 0,
    {
        Health { max_health: 0, current_health: 0 }
    }
}

/// The state of the player's controls.
#[derive(Clone, Copy, Debug, PartialEq, Eq, Structural)]
pub struct Input {
    pub left: bool,
    pub right: bool,
    pub up: bool,
    pub down: bool,
    pub attack: bool,
}

impl Default for Input {
    fn default() -> (r: Self)
        ensures
            !r.left && !r.right && !r.up && !r.down && !r.attack,
    {
        Input { left: false, right: false, up: false, down: false, attack: false }
    }
}

} // verus!
