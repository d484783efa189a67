use vstd::prelude::*;
use std::time::Duration;

verus! {

/// Identifies one participant for the lifetime of a session.
pub type PlayerId = u32;

/// Something that advances in fixed steps of time.
pub trait TickRate {
    /// The time between two steps.
    fn tick_duration(&self) -> Duration;
}

/// Why a request to a game was turned down.
#[derive(Debug, Clone, PartialEq)]
pub enum GameError {
    /// No player with this id takes part in the game.
    PlayerNotFound(PlayerId),
    /// The input could not be read or asks for an illegal move.
    InvalidInput(String),
    /// The game cannot do this in its present state.
    InvalidState(String),
    /// A payload could not be encoded or decoded.
    EncodingError(String),
    /// Anything else.
    Other(String),
}

/// What one tick produced for the transport layer.
pub struct TickResult {
    /// Payload for every player, if there is one.
    pub broadcast: Option<Vec<u8>>,
    /// Payloads addressed to single players.
    pub player_updates: Vec<(PlayerId, Vec<u8>)>,
    /// Players eliminated during the tick, in the order it happened.
    pub eliminated: Vec<PlayerId>,
    /// Players that re-entered the world during the tick.
    pub respawns: Vec<PlayerId>,
}

impl Default for TickResult {
    fn default() -> (result: Self)
        ensures
            result.broadcast.is_none(),
            result.player_updates@.len() == 0,
            result.eliminated@.len() == 0,
            result.respawns@.len() == 0,
    {
        Self {
            broadcast: None,
            player_updates: Vec::new(),
            eliminated: Vec::new(),
            respawns: Vec::new(),
        }
    }
}

/// The capability interface between a game variant and the loop that drives
/// it. All calls must be serialized by the owner.
pub trait Game: Send + Sync {
    /// Whether the game can take another tick.
    spec fn can_tick(&self) -> bool;

    /// Whether the configured tick rate yields a tick length.
    spec fn has_tick_rate(&self) -> bool;

    /// The full snapshot of the game as it stands.
    spec fn snapshot(&self) -> Seq<u8>;

    /// Whether the game shows single players something else than the full
    /// snapshot.
    spec fn narrows_snapshot(&self) -> bool;

    /// Whether the game is of a kind that ends.
    spec fn can_end(&self) -> bool;

    /// Advances the simulation by one step.
    fn tick(&mut self) -> (result: TickResult)
        requires
            old(self).can_tick(),
    ;

    /// Applies one encoded input of `player_id`.
    fn handle_input(&mut self, player_id: PlayerId, input: &[u8]) -> (result: Result<
        (),
        GameError,
    >);

    /// Admits a new player and returns the payload to send back.
    fn player_joined(&mut self, player_id: PlayerId, name: String) -> (result: Result<
        Vec<u8>,
        GameError,
    >);

    /// Removes a player for good.
    fn player_left(&mut self, player_id: PlayerId);

    /// A snapshot of the whole game.
    fn encode_state(&self) -> (bytes: Vec<u8>)
        ensures
            bytes@ == self.snapshot(),
    ;

    /// A snapshot as `player_id` should see it; the full snapshot unless a
    /// game narrows it.
    fn encode_state_for_player(&self, player_id: PlayerId) -> (bytes: Vec<u8>)
        ensures
            !self.narrows_snapshot() ==> bytes@ == self.snapshot(),
    {
        self.encode_state()
    }

    /// The time between two ticks.
    fn tick_rate(&self) -> (rate: Duration)
        requires
            self.has_tick_rate(),
    ;

    /// Whether the game has ended; games without an end never say so.
    fn is_game_over(&self) -> (over: bool)
        ensures
            !self.can_end() ==> !over,
    {
        false
    }

    /// The winners once the game has ended; a game without an end has none.
    fn get_winners(&self) -> (winners: Vec<PlayerId>)
        ensures
            !self.can_end() ==> winners@ == Seq::<PlayerId>::empty(),
    {
        Vec::new()
    }
}

/// Settings shared by every game variant.
pub struct GameConfig {
    pub grid_width: u32,
    pub grid_height: u32,
    pub tick_rate_hz: u32,
    pub max_players: usize,
}

impl Default for GameConfig {
    fn default() -> (config: Self)
        ensures
            config.grid_width == 100,
            config.grid_height == 100,
            config.tick_rate_hz == 20,
            config.max_players == 16,
    {
        Self { grid_width: 100, grid_height: 100, tick_rate_hz: 20, max_players: 16 }
    }
}

} // verus!
