use rust_server::config::PaperioConfig;
use rust_server::engine::PaperioGame;
use rust_server::game::Game;
use rust_server::grid::{Direction, GridPos};
use std::time::Duration;

fn input_bytes(direction: i32) -> Vec<u8> {
    let mut bytes = Vec::new();
    if direction != 0 {
        prost::encoding::int32::encode(1, &direction, &mut bytes);
    }
    bytes
}

#[test]
fn test_game_creation() {
    let game = PaperioGame::new();
    assert_eq!(game.current_tick(), 0);
    assert_eq!(game.config().grid_width, 100);
    assert_eq!(game.config().grid_height, 100);
}

#[test]
fn test_tick_increments() {
    let mut game = PaperioGame::new();
    assert_eq!(game.current_tick(), 0);
    game.tick();
    assert_eq!(game.current_tick(), 1);
    game.tick();
    assert_eq!(game.current_tick(), 2);
}

#[test]
fn test_tick_rate() {
    let game = PaperioGame::new();
    assert_eq!(game.tick_rate(), Duration::from_millis(50));
}

#[test]
fn test_player_join() {
    let mut game = PaperioGame::new();

    let result = game.player_joined(1, "Alice".to_string());
    assert!(result.is_ok());

    let player = game.state().get_player(1);
    assert!(player.is_some());

    let player = player.unwrap();
    assert_eq!(player.name, "Alice");
    assert!(player.alive);
    // New players should have invulnerability
    assert!(player.is_invulnerable());

    let owned = game.state().territory.count_owned_by(1);
    assert!(owned > 0);
}

#[test]
fn test_player_leave() {
    let mut game = PaperioGame::new();

    game.player_joined(1, "Alice".to_string()).unwrap();
    assert!(game.state().get_player(1).is_some());

    game.player_left(1);
    assert!(game.state().get_player(1).is_none());

    let owned = game.state().territory.count_owned_by(1);
    assert_eq!(owned, 0);
}

#[test]
fn test_handle_input_direction() {
    let mut game = PaperioGame::new();
    game.player_joined(1, "Alice".to_string()).unwrap();

    let bytes = input_bytes(1); // UP

    let result = game.handle_input(1, &bytes);
    assert!(result.is_ok());

    let player = game.state().get_player(1).unwrap();
    assert_eq!(player.direction, Direction::Up);
}

#[test]
fn test_full_tick_with_movement() {
    let mut game = PaperioGame::new();
    game.player_joined(1, "Alice".to_string()).unwrap();

    let initial_pos = game.state().get_player(1).unwrap().position;

    game.handle_input(1, &input_bytes(4)).unwrap(); // RIGHT

    game.tick();

    let new_pos = game.state().get_player(1).unwrap().position;
    assert_eq!(new_pos.x, initial_pos.x + 1);
    assert_eq!(new_pos.y, initial_pos.y);
}

#[test]
fn test_multiple_players() {
    let mut game = PaperioGame::new();

    game.player_joined(1, "Alice".to_string()).unwrap();
    game.player_joined(2, "Bob".to_string()).unwrap();

    assert_eq!(game.state().players.len(), 2);
    assert!(game.state().get_player(1).is_some());
    assert!(game.state().get_player(2).is_some());
}

#[test]
fn test_territory_claim_through_tick() {
    let config = PaperioConfig::with_grid_size(20, 20);
    let mut game = PaperioGame::with_config(config);

    game.player_joined(1, "Alice".to_string()).unwrap();

    let initial_territory = game.state().territory.count_owned_by(1);

    game.handle_input(1, &input_bytes(4)).unwrap();
    for _ in 0..3 {
        game.tick();
    }

    game.handle_input(1, &input_bytes(2)).unwrap();
    for _ in 0..3 {
        game.tick();
    }

    game.handle_input(1, &input_bytes(3)).unwrap();
    for _ in 0..5 {
        game.tick();
    }

    game.handle_input(1, &input_bytes(1)).unwrap();
    for _ in 0..5 {
        game.tick();
    }

    let final_territory = game.state().territory.count_owned_by(1);

    assert!(
        final_territory >= initial_territory,
        "Territory should not decrease: {} -> {}",
        initial_territory,
        final_territory
    );
}

#[test]
fn test_boundary_elimination_through_tick() {
    let config = PaperioConfig::with_grid_size(20, 20);
    let mut game = PaperioGame::with_config(config);

    game.player_joined(1, "Alice".to_string()).unwrap();

    game.state_mut().players.get_mut(&1).unwrap().invulnerability_timer = 0;

    game.state_mut().players.get_mut(&1).unwrap().position = GridPos::new(0, 10);

    game.handle_input(1, &input_bytes(3)).unwrap(); // LEFT

    let result = game.tick();

    assert!(result.eliminated.contains(&1));
    assert!(!game.state().get_player(1).unwrap().alive);
}

#[test]
fn test_self_collision_through_tick() {
    let config = PaperioConfig::with_grid_size(30, 30);
    let mut game = PaperioGame::with_config(config);

    game.player_joined(1, "Alice".to_string()).unwrap();

    game.state_mut().players.get_mut(&1).unwrap().invulnerability_timer = 0;

    let player = game.state_mut().players.get_mut(&1).unwrap();
    player.position = GridPos::new(20, 15);
    player.direction = Direction::Left;
    player.trail = vec![GridPos::new(21, 15), GridPos::new(20, 15), GridPos::new(19, 15)];

    let result = game.tick();

    assert!(result.eliminated.contains(&1), "Player should be eliminated from self-collision");
    assert!(
        !game.state().get_player(1).unwrap().alive,
        "Player should not be alive after self-collision"
    );
}

#[test]
fn test_trail_cut_between_players() {
    let config = PaperioConfig::with_grid_size(50, 50);
    let mut game = PaperioGame::with_config(config);

    game.player_joined(1, "Alice".to_string()).unwrap();
    game.player_joined(2, "Bob".to_string()).unwrap();

    game.state_mut().players.get_mut(&1).unwrap().invulnerability_timer = 0;
    game.state_mut().players.get_mut(&2).unwrap().invulnerability_timer = 0;

    game.state_mut().players.get_mut(&1).unwrap().position = GridPos::new(20, 25);
    game.state_mut().players.get_mut(&2).unwrap().position = GridPos::new(25, 20);

    game.state_mut().players.get_mut(&1).unwrap().trail = vec![
        GridPos::new(21, 25),
        GridPos::new(22, 25),
        GridPos::new(23, 25),
        GridPos::new(24, 25),
        GridPos::new(25, 25),
    ];

    game.state_mut().players.get_mut(&2).unwrap().position = GridPos::new(23, 25);

    let result = game.tick();

    assert!(
        result.eliminated.contains(&1),
        "Player 1 should be eliminated when their trail is cut"
    );
}

#[test]
fn test_respawn_after_elimination() {
    let mut config = PaperioConfig::with_grid_size(20, 20);
    config.respawn_delay_ticks = 3; // Short delay for test
    let mut game = PaperioGame::with_config(config);

    game.player_joined(1, "Alice".to_string()).unwrap();

    game.state_mut().players.get_mut(&1).unwrap().invulnerability_timer = 0;

    game.state_mut().players.get_mut(&1).unwrap().position = GridPos::new(0, 10);
    game.handle_input(1, &input_bytes(3)).unwrap();

    let result = game.tick();
    assert!(result.eliminated.contains(&1));
    assert!(!game.state().get_player(1).unwrap().alive);
    assert_eq!(game.state().get_player(1).unwrap().respawn_timer, 3);

    game.tick(); // timer = 2
    assert_eq!(game.state().get_player(1).unwrap().respawn_timer, 2);

    game.tick(); // timer = 1
    assert_eq!(game.state().get_player(1).unwrap().respawn_timer, 1);

    let result = game.tick(); // timer = 0, should respawn
    assert!(result.respawns.contains(&1));
    assert!(game.state().get_player(1).unwrap().alive);
    assert!(game.state().get_player(1).unwrap().is_invulnerable());
}

#[test]
fn test_invulnerability_protects_from_trail_cut() {
    let config = PaperioConfig::with_grid_size(50, 50);
    let mut game = PaperioGame::with_config(config);

    game.player_joined(1, "Alice".to_string()).unwrap();
    game.player_joined(2, "Bob".to_string()).unwrap();

    assert!(game.state().get_player(1).unwrap().is_invulnerable());

    game.state_mut().players.get_mut(&2).unwrap().invulnerability_timer = 0;

    game.state_mut().players.get_mut(&1).unwrap().trail =
        vec![GridPos::new(25, 25), GridPos::new(26, 25)];

    game.state_mut().players.get_mut(&2).unwrap().position = GridPos::new(25, 25);

    let result = game.tick();

    assert!(!result.eliminated.contains(&1));
    assert!(game.state().get_player(1).unwrap().alive);
}
