use rust_server::config::{get_player_color, PaperioConfig, PLAYER_COLORS};
use std::time::Duration;

#[test]
fn test_default_config() {
    let config = PaperioConfig::default();
    assert_eq!(config.grid_width, 100);
    assert_eq!(config.grid_height, 100);
    assert_eq!(config.tick_rate_hz, 20);
    assert_eq!(config.tick_duration(), Duration::from_millis(50));
}

#[test]
fn test_player_colors() {
    // Colors should cycle
    assert_eq!(get_player_color(0), get_player_color(16));
    assert_eq!(get_player_color(1), get_player_color(17));
    // But adjacent should differ
    assert_ne!(get_player_color(0), get_player_color(1));
}

#[test]
fn default_config_holds_every_stock_setting() {
    let config = PaperioConfig::default();
    assert_eq!(config.max_players, 16);
    assert_eq!(config.starting_territory_size, 3);
    assert_eq!(config.respawn_delay_ticks, 60);
    assert_eq!(config.invulnerability_ticks, 40);
    assert_eq!(config.min_spawn_distance, 15);
}

#[test]
fn with_grid_size_changes_only_the_grid() {
    let config = PaperioConfig::with_grid_size(20, 30);
    assert_eq!(config.grid_width, 20);
    assert_eq!(config.grid_height, 30);
    assert_eq!(config.tick_rate_hz, 20);
    assert_eq!(config.max_players, 16);
    assert_eq!(config.starting_territory_size, 3);
    assert_eq!(config.respawn_delay_ticks, 60);
    assert_eq!(config.invulnerability_ticks, 40);
    assert_eq!(config.min_spawn_distance, 15);
}

#[test]
fn tick_millis_rounds_down() {
    let mut config = PaperioConfig::default();
    assert_eq!(config.tick_millis(), 50);
    config.tick_rate_hz = 30;
    assert_eq!(config.tick_millis(), 33);
    assert_eq!(config.tick_duration(), Duration::from_millis(33));
    config.tick_rate_hz = 2000;
    assert_eq!(config.tick_millis(), 0);
    assert_eq!(config.tick_duration(), Duration::from_millis(0));
}

#[test]
fn player_color_is_the_palette_entry() {
    assert_eq!(get_player_color(0), 0xFF5733FF);
    assert_eq!(get_player_color(15), 0xFF6347FF);
    assert_eq!(get_player_color(16), 0xFF5733FF);
    assert_eq!(get_player_color(35), PLAYER_COLORS[3]);
    assert_eq!(get_player_color(u32::MAX), PLAYER_COLORS[15]);
}
