use vstd::prelude::*;
use crate::game::PlayerId;
use crate::grid::Direction;
use crate::grid::GridPos;

verus! {

/// One participant of a game.
#[derive(Debug, Clone)]
pub struct Player {
    /// Unique player identifier.
    pub id: PlayerId,
    /// Display name.
    pub name: String,
    /// Current cell.
    pub position: GridPos,
    /// Current heading.
    pub direction: Direction,
    /// Cells crossed since the player last left its own territory, oldest
    /// first; empty while inside it.
    pub trail: Vec<GridPos>,
    /// Whether the player is in the world.
    pub alive: bool,
    /// Share of the grid owned, in hundredths of a percent.
    pub score: u32,
    /// Packed RGBA colour.
    pub color: u32,
    /// Ticks until respawn; zero while alive.
    pub respawn_timer: u32,
    /// Ticks of invulnerability left; zero when vulnerable.
    pub invulnerability_timer: u32,
}

/// The mathematical content of a [`Player`].
pub struct PlayerView {
    pub id: PlayerId,
    pub name: Seq<char>,
    pub position: GridPos,
    pub direction: Direction,
    pub trail: Seq<GridPos>,
    pub alive: bool,
    pub score: u32,
    pub color: u32,
    pub respawn_timer: u32,
    pub invulnerability_timer: u32,
}

impl View for Player {
    type V = PlayerView;

    open spec fn view(&self) -> PlayerView {
        PlayerView {
            id: self.id,
            name: self.name@,
            position: self.position,
            direction: self.direction,
            trail: self.trail@,
            alive: self.alive,
            score: self.score,
            color: self.color,
            respawn_timer: self.respawn_timer,
            invulnerability_timer: self.invulnerability_timer,
        }
    }
}

impl PlayerView {
    /// A player as it enters the world: alive, standing still, without
    /// trail, score or running timers.
    pub open spec fn fresh(id: PlayerId, name: Seq<char>, position: GridPos, color: u32) -> Self {
        PlayerView {
            id,
            name,
            position,
            direction: Direction::Still,
            trail: Seq::empty(),
            alive: true,
            score: 0,
            color,
            respawn_timer: 0,
            invulnerability_timer: 0,
        }
    }

    pub open spec fn is_invulnerable(self) -> bool {
        self.invulnerability_timer > 0
    }

    pub open spec fn is_respawning(self) -> bool {
        !self.alive && self.respawn_timer > 0
    }

    pub open spec fn has_trail(self) -> bool {
        self.trail.len() > 0
    }
}

impl Player {
    pub fn new(id: PlayerId, name: String, position: GridPos, color: u32) -> (player: Self)
        ensures
            player@ == PlayerView::fresh(id, name@, position, color),
    {
        Self {
            id,
            name,
            position,
            direction: Direction::Still,
            trail: Vec::new(),
            alive: true,
            score: 0,
            color,
            respawn_timer: 0,
            invulnerability_timer: 0,
        }
    }

    pub fn is_invulnerable(&self) -> (b: bool)
        ensures
            b == self@.is_invulnerable(),
    {
        self.invulnerability_timer > 0
    }

    pub fn is_respawning(&self) -> (b: bool)
        ensures
            b == self@.is_respawning(),
    {
        !self.alive && self.respawn_timer > 0
    }

    pub fn has_trail(&self) -> (b: bool)
        ensures
            b == self@.has_trail(),
    {
        self.trail.len() > 0
    }
}

} // verus!
