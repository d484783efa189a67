use vstd::prelude::*;
use std::time::Duration;

verus! {

/// The length of time that `Duration::from_millis` makes of a number of
/// milliseconds.
pub uninterp spec fn duration_of_millis(millis: u64) -> Duration;

/// `std::time::Duration::from_millis`: a duration of that many milliseconds.
#[verifier::external_body]
fn duration_from_millis(millis: u64) -> (d: Duration)
    ensures
        d == duration_of_millis(millis),
{
    Duration::from_millis(millis)
}

/// Everything about a game that is fixed when it is created.
#[derive(Debug, Clone)]
pub struct PaperioConfig {
    /// Grid width in cells.
    pub grid_width: u32,
    /// Grid height in cells.
    pub grid_height: u32,
    /// Ticks per second.
    pub tick_rate_hz: u32,
    /// Most players one game takes.
    pub max_players: usize,
    /// Side of the square of territory granted around a spawn point.
    pub starting_territory_size: u32,
    /// Ticks between elimination and respawn.
    pub respawn_delay_ticks: u32,
    /// Ticks of invulnerability after a spawn.
    pub invulnerability_ticks: u32,
    /// Least distance between a spawn point and any living player.
    pub min_spawn_distance: u32,
}

impl PaperioConfig {
    /// The stock settings: a 100 by 100 grid at 20 ticks per second.
    pub open spec fn spec_default() -> PaperioConfig {
        PaperioConfig {
            grid_width: 100,
            grid_height: 100,
            tick_rate_hz: 20,
            max_players: 16,
            starting_territory_size: 3,
            respawn_delay_ticks: 60,
            invulnerability_ticks: 40,
            min_spawn_distance: 15,
        }
    }

    /// Whole milliseconds per tick.
    pub open spec fn spec_tick_millis(self) -> int
        recommends
            self.tick_rate_hz > 0,
    {
        1000int / (self.tick_rate_hz as int)
    }

    /// The stock settings on a grid of another size.
    pub fn with_grid_size(width: u32, height: u32) -> (config: Self)
        ensures
            config == (PaperioConfig {
                grid_width: width,
                grid_height: height,
                ..PaperioConfig::spec_default()
            }),
    {
        Self {
            grid_width: width,
            grid_height: height,
            tick_rate_hz: 20,
            max_players: 16,
            starting_territory_size: 3,
            respawn_delay_ticks: 60,
            invulnerability_ticks: 40,
            min_spawn_distance: 15,
        }
    }

    /// Whole milliseconds per tick.
    pub fn tick_millis(&self) -> (millis: u64)
        requires
            self.tick_rate_hz > 0,
        ensures
            millis == self.spec_tick_millis(),
    {
        1000 / (self.tick_rate_hz as u64)
    }

    /// The time between two ticks, in whole milliseconds.
    pub fn tick_duration(&self) -> (d: Duration)
        requires
            self.tick_rate_hz > 0,
        ensures
            d == duration_of_millis(self.spec_tick_millis() as u64),
    {
        duration_from_millis(self.tick_millis())
    }
}

impl Default for PaperioConfig {
    fn default() -> (config: Self)
        ensures
            config == PaperioConfig::spec_default(),
    {
        Self {
            grid_width: 100,
            grid_height: 100,
            tick_rate_hz: 20,
            max_players: 16,
            starting_territory_size: 3,
            respawn_delay_ticks: 60,
            invulnerability_ticks: 40,
            min_spawn_distance: 15,
        }
    }
}

/// The palette that players are coloured from, as packed RGBA.
pub const PLAYER_COLORS: [u32; 16] = [
    0xFF5733FF,
    0x33FF57FF,
    0x3357FFFF,
    0xFFFF33FF,
    0xFF33FFFF,
    0x33FFFFFF,
    0xFF8C00FF,
    0x8A2BE2FF,
    0x00CED1FF,
    0xDC143CFF,
    0x32CD32FF,
    0x4169E1FF,
    0xFFD700FF,
    0x9400D3FF,
    0x00FA9AFF,
    0xFF6347FF,
];

/// The palette entry of a player: ids cycle through the sixteen colours.
pub open spec fn spec_player_color(player_id: u32) -> u32 {
    PLAYER_COLORS[player_id as int % 16]
}

pub fn get_player_color(player_id: u32) -> (color: u32)
    ensures
        color == spec_player_color(player_id),
{
    PLAYER_COLORS[(player_id as usize) % PLAYER_COLORS.len()]
}

/// Ids sixteen apart share a colour.
pub proof fn law_player_colors_cycle(player_id: u32)
    requires
        player_id + 16 <= u32::MAX,
    ensures
        spec_player_color(player_id) == spec_player_color((player_id + 16) as u32),
{
}

} // verus!
