use rust_server::claim::claim_territory;
use rust_server::collision::{check_collisions, EliminationReason};
use rust_server::config::PaperioConfig;
use rust_server::flood::{flood_fill_from_edges, get_neighbors};
use rust_server::game::PlayerId;
use rust_server::grid::{Direction, GridPos};
use rust_server::movement::{
    add_to_trail, clear_trail, direction_from_proto, direction_to_proto, is_in_own_territory,
    set_player_direction, update_movement,
};
use rust_server::player::Player;
use rust_server::scoring::update_scores;
use rust_server::spawn::{
    eliminate_player, find_spawn_position, grant_starting_territory, respawn_player,
};
use rust_server::state::GameState;
use rust_server::territory::TerritoryGrid;
use rust_server::timers::update_timers;
use std::collections::HashSet;

fn setup_game_state() -> GameState {
    GameState::new(20, 20)
}

fn setup_player_with_territory(state: &mut GameState, player_id: PlayerId) {
    let spawn = GridPos::new(10, 10);
    let player = Player::new(player_id, "Test".to_string(), spawn, 0xFFFFFFFF);
    state.players.insert(player_id, player);
    grant_starting_territory(&mut state.territory, player_id, &spawn, 3);
}

#[test]
fn test_is_in_own_territory() {
    let mut territory = TerritoryGrid::new(10, 10);
    let pos = GridPos::new(5, 5);

    assert!(!is_in_own_territory(&territory, 1, &pos));
    territory.set_cell_owner(&pos, Some(1));
    assert!(is_in_own_territory(&territory, 1, &pos));
    assert!(!is_in_own_territory(&territory, 2, &pos));
}

#[test]
fn test_grant_starting_territory() {
    let mut territory = TerritoryGrid::new(10, 10);
    let center = GridPos::new(5, 5);

    grant_starting_territory(&mut territory, 1, &center, 3);

    assert!(territory.is_owned_by(&GridPos::new(4, 4), 1));
    assert!(territory.is_owned_by(&GridPos::new(5, 5), 1));
    assert!(territory.is_owned_by(&GridPos::new(6, 6), 1));
    assert!(!territory.is_owned_by(&GridPos::new(3, 3), 1));
}

#[test]
fn test_trail_operations() {
    let mut player = Player::new(1, "Test".to_string(), GridPos::new(0, 0), 0xFFFFFFFF);

    assert!(!player.has_trail());

    add_to_trail(&mut player, GridPos::new(1, 0));
    add_to_trail(&mut player, GridPos::new(2, 0));

    assert!(player.has_trail());
    assert_eq!(player.trail.len(), 2);

    clear_trail(&mut player);
    assert!(!player.has_trail());
}

#[test]
fn test_update_scores() {
    let mut state = GameState::new(10, 10); // 100 cells

    state.players.insert(1, Player::new(1, "Test".to_string(), GridPos::new(5, 5), 0xFFFFFFFF));

    for x in 0..10 {
        state.territory.set_cell_owner(&GridPos::new(x, 0), Some(1));
    }

    update_scores(&mut state);

    let player = state.get_player(1).unwrap();
    assert_eq!(player.score, 1000); // 10.00% * 100 = 1000
}

#[test]
fn test_player_moves_in_direction() {
    let mut state = setup_game_state();
    setup_player_with_territory(&mut state, 1);

    set_player_direction(&mut state, 1, Direction::Right).unwrap();

    let initial_pos = state.get_player(1).unwrap().position;

    let config = PaperioConfig::default();
    update_movement(&mut state, &config);

    let new_pos = state.get_player(1).unwrap().position;
    assert_eq!(new_pos, initial_pos.moved(Direction::Right));
}

#[test]
fn test_player_stationary_when_direction_none() {
    let mut state = setup_game_state();
    setup_player_with_territory(&mut state, 1);

    let initial_pos = state.get_player(1).unwrap().position;

    let config = PaperioConfig::default();
    update_movement(&mut state, &config);

    let new_pos = state.get_player(1).unwrap().position;
    assert_eq!(new_pos, initial_pos);
}

#[test]
fn test_trail_created_outside_territory() {
    let mut state = setup_game_state();
    setup_player_with_territory(&mut state, 1);

    state.players.get_mut(&1).unwrap().position = GridPos::new(11, 10);

    set_player_direction(&mut state, 1, Direction::Right).unwrap();

    let config = PaperioConfig::default();

    update_movement(&mut state, &config);

    let player = state.get_player(1).unwrap();
    assert_eq!(player.position, GridPos::new(12, 10));
    assert!(player.has_trail());
}

#[test]
fn test_trail_completes_on_return() {
    let mut state = setup_game_state();
    setup_player_with_territory(&mut state, 1);
    let config = PaperioConfig::default();

    state.players.get_mut(&1).unwrap().position = GridPos::new(11, 10);
    set_player_direction(&mut state, 1, Direction::Right).unwrap();

    update_movement(&mut state, &config);

    let player = state.get_player(1).unwrap();
    assert!(player.has_trail());

    update_movement(&mut state, &config);

    set_player_direction(&mut state, 1, Direction::Down).unwrap();
    update_movement(&mut state, &config);

    set_player_direction(&mut state, 1, Direction::Left).unwrap();
    update_movement(&mut state, &config);
    update_movement(&mut state, &config);

    let _results = update_movement(&mut state, &config);

    assert!(!state.get_player(1).unwrap().has_trail());
}

#[test]
fn test_cannot_reverse_direction() {
    let mut state = setup_game_state();
    setup_player_with_territory(&mut state, 1);

    set_player_direction(&mut state, 1, Direction::Right).unwrap();

    let result = set_player_direction(&mut state, 1, Direction::Left);
    assert!(result.is_err());

    assert_eq!(state.get_player(1).unwrap().direction, Direction::Right);
}

#[test]
fn test_can_turn_90_degrees() {
    let mut state = setup_game_state();
    setup_player_with_territory(&mut state, 1);

    set_player_direction(&mut state, 1, Direction::Right).unwrap();

    set_player_direction(&mut state, 1, Direction::Up).unwrap();
    assert_eq!(state.get_player(1).unwrap().direction, Direction::Up);

    set_player_direction(&mut state, 1, Direction::Left).unwrap();
    assert_eq!(state.get_player(1).unwrap().direction, Direction::Left);
}

#[test]
fn test_boundary_collision() {
    let mut state = setup_game_state();
    setup_player_with_territory(&mut state, 1);
    let config = PaperioConfig::default();

    state.players.get_mut(&1).unwrap().position = GridPos::new(10, 0);

    set_player_direction(&mut state, 1, Direction::Up).unwrap();

    let results = update_movement(&mut state, &config);

    assert_eq!(results.len(), 1);
    assert!(results[0].1.hit_boundary);
}

#[test]
fn test_direction_from_proto() {
    assert_eq!(direction_from_proto(0), Direction::Still);
    assert_eq!(direction_from_proto(1), Direction::Up);
    assert_eq!(direction_from_proto(2), Direction::Down);
    assert_eq!(direction_from_proto(3), Direction::Left);
    assert_eq!(direction_from_proto(4), Direction::Right);
    assert_eq!(direction_from_proto(99), Direction::Still);
}

#[test]
fn test_direction_to_proto() {
    assert_eq!(direction_to_proto(Direction::Still), 0);
    assert_eq!(direction_to_proto(Direction::Up), 1);
    assert_eq!(direction_to_proto(Direction::Down), 2);
    assert_eq!(direction_to_proto(Direction::Left), 3);
    assert_eq!(direction_to_proto(Direction::Right), 4);
}

#[test]
fn test_timer_decrement() {
    let mut state = setup_game_state();
    setup_player_with_territory(&mut state, 1);

    state.players.get_mut(&1).unwrap().invulnerability_timer = 5;

    update_timers(&mut state);
    assert_eq!(state.get_player(1).unwrap().invulnerability_timer, 4);

    update_timers(&mut state);
    assert_eq!(state.get_player(1).unwrap().invulnerability_timer, 3);
}

#[test]
fn test_respawn_timer() {
    let mut state = setup_game_state();
    setup_player_with_territory(&mut state, 1);

    eliminate_player(&mut state, 1, EliminationReason::Boundary, 3);

    assert!(!state.get_player(1).unwrap().alive);
    assert_eq!(state.get_player(1).unwrap().respawn_timer, 3);

    let ready = update_timers(&mut state);
    assert!(ready.is_empty());
    assert_eq!(state.get_player(1).unwrap().respawn_timer, 2);

    update_timers(&mut state);
    assert_eq!(state.get_player(1).unwrap().respawn_timer, 1);

    let ready = update_timers(&mut state);
    assert_eq!(ready, vec![1]);
}

#[test]
fn test_claim_simple_rectangle() {
    let mut state = GameState::new(10, 10);
    let center = GridPos::new(3, 3);

    grant_starting_territory(&mut state.territory, 1, &center, 3);

    let trail = vec![
        GridPos::new(5, 4),
        GridPos::new(5, 3),
        GridPos::new(5, 2),
        GridPos::new(4, 2),
    ];

    let result = claim_territory(&mut state.territory, 1, &trail);

    assert!(result.cells_claimed > 0);

    for pos in &trail {
        assert!(
            state.territory.is_owned_by(pos, 1),
            "Trail cell {:?} should be owned by player 1",
            pos
        );
    }
}

#[test]
fn test_claim_l_shaped_territory() {
    let mut state = GameState::new(10, 10);
    grant_starting_territory(&mut state.territory, 1, &GridPos::new(3, 3), 3);

    let trail = vec![
        GridPos::new(5, 3),
        GridPos::new(5, 4),
        GridPos::new(4, 4),
        GridPos::new(4, 5),
        GridPos::new(5, 5),
        GridPos::new(6, 5),
        GridPos::new(6, 4),
        GridPos::new(6, 3),
        GridPos::new(6, 2),
        GridPos::new(5, 2),
        GridPos::new(4, 2),
    ];

    let result = claim_territory(&mut state.territory, 1, &trail);

    assert!(result.cells_claimed > 0, "Should claim some cells");

    for pos in &trail {
        assert!(state.territory.is_owned_by(pos, 1));
    }
}

#[test]
fn test_claim_steals_enemy_territory() {
    let mut state = GameState::new(10, 10);

    grant_starting_territory(&mut state.territory, 1, &GridPos::new(2, 5), 3);

    grant_starting_territory(&mut state.territory, 2, &GridPos::new(5, 5), 3);

    let initial_p2_cells = state.territory.count_owned_by(2);

    let trail = vec![
        GridPos::new(4, 5),
        GridPos::new(4, 4),
        GridPos::new(4, 3),
        GridPos::new(5, 3),
        GridPos::new(6, 3),
        GridPos::new(7, 3),
        GridPos::new(7, 4),
        GridPos::new(7, 5),
        GridPos::new(7, 6),
        GridPos::new(7, 7),
        GridPos::new(6, 7),
        GridPos::new(5, 7),
        GridPos::new(4, 7),
        GridPos::new(4, 6),
        GridPos::new(3, 6),
    ];

    let result = claim_territory(&mut state.territory, 1, &trail);

    assert!(result.cells_stolen > 0, "Should have stolen cells from player 2");
    assert!(result.victims.contains(&2), "Player 2 should be in victims list");

    let final_p2_cells = state.territory.count_owned_by(2);
    assert!(
        final_p2_cells < initial_p2_cells,
        "Player 2 should have lost territory: {} -> {}",
        initial_p2_cells,
        final_p2_cells
    );
}

#[test]
fn test_claim_no_enclosed_area() {
    let mut state = GameState::new(10, 10);
    grant_starting_territory(&mut state.territory, 1, &GridPos::new(5, 5), 3);

    let trail = vec![GridPos::new(7, 5), GridPos::new(8, 5), GridPos::new(9, 5)];

    let result = claim_territory(&mut state.territory, 1, &trail);

    assert_eq!(result.cells_claimed, 3);
    assert_eq!(result.cells_stolen, 0);
}

#[test]
fn test_claim_empty_trail() {
    let mut state = GameState::new(10, 10);
    grant_starting_territory(&mut state.territory, 1, &GridPos::new(5, 5), 3);

    let trail: Vec<GridPos> = vec![];
    let result = claim_territory(&mut state.territory, 1, &trail);

    assert_eq!(result.cells_claimed, 0);
    assert_eq!(result.cells_stolen, 0);
    assert!(result.victims.is_empty());
}

#[test]
fn test_flood_fill_finds_enclosed_cells() {
    let mut territory = TerritoryGrid::new(10, 10);

    for x in 2..=6 {
        territory.set_cell_owner(&GridPos::new(x, 2), Some(1));
        territory.set_cell_owner(&GridPos::new(x, 6), Some(1));
    }
    for y in 3..=5 {
        territory.set_cell_owner(&GridPos::new(2, y), Some(1));
        territory.set_cell_owner(&GridPos::new(6, y), Some(1));
    }

    let enclosed = flood_fill_from_edges(&territory, 1);

    assert_eq!(enclosed.len(), 9, "Should find 9 enclosed cells in the center");

    for pos in &enclosed {
        assert!(
            pos.x >= 3 && pos.x <= 5 && pos.y >= 3 && pos.y <= 5,
            "Enclosed cell {:?} should be in center area",
            pos
        );
    }
}

#[test]
fn test_flood_fill_no_enclosed_when_open() {
    let mut territory = TerritoryGrid::new(10, 10);

    // Create U-shape (open at top)
    for x in 2..=6 {
        territory.set_cell_owner(&GridPos::new(x, 6), Some(1)); // bottom
    }
    for y in 3..=5 {
        territory.set_cell_owner(&GridPos::new(2, y), Some(1)); // left
        territory.set_cell_owner(&GridPos::new(6, y), Some(1)); // right
    }
    // Top has gaps
    territory.set_cell_owner(&GridPos::new(2, 2), Some(1));
    territory.set_cell_owner(&GridPos::new(3, 2), Some(1));
    territory.set_cell_owner(&GridPos::new(5, 2), Some(1));
    territory.set_cell_owner(&GridPos::new(6, 2), Some(1));
    // Gap at (4, 2)

    let enclosed = flood_fill_from_edges(&territory, 1);

    assert!(
        enclosed.is_empty(),
        "Should have no enclosed cells when there's a gap, found: {:?}",
        enclosed
    );
}

#[test]
fn test_get_neighbors() {
    let pos = GridPos::new(5, 5);
    let neighbors = get_neighbors(&pos);

    assert!(neighbors.contains(&GridPos::new(4, 5))); // Left
    assert!(neighbors.contains(&GridPos::new(6, 5))); // Right
    assert!(neighbors.contains(&GridPos::new(5, 4))); // Up
    assert!(neighbors.contains(&GridPos::new(5, 6))); // Down
}

#[test]
fn test_self_collision() {
    let mut state = setup_game_state();
    setup_player_with_territory(&mut state, 1);

    let player = state.players.get_mut(&1).unwrap();
    player.trail = vec![GridPos::new(12, 10), GridPos::new(13, 10), GridPos::new(14, 10)];
    player.position = GridPos::new(13, 10);

    let eliminations = check_collisions(&state);

    assert_eq!(eliminations.len(), 1);
    assert_eq!(eliminations[0].victim, 1);
    assert_eq!(eliminations[0].reason, EliminationReason::SelfCollision);
}

#[test]
fn test_trail_cut_by_other_player() {
    let mut state = setup_game_state();
    setup_player_with_territory(&mut state, 1);
    setup_player_with_territory(&mut state, 2);

    let player1 = state.players.get_mut(&1).unwrap();
    player1.position = GridPos::new(15, 10);
    player1.trail = vec![GridPos::new(12, 10), GridPos::new(13, 10), GridPos::new(14, 10)];

    let player2 = state.players.get_mut(&2).unwrap();
    player2.position = GridPos::new(13, 10); // On player 1's trail

    let eliminations = check_collisions(&state);

    assert_eq!(eliminations.len(), 1);
    assert_eq!(eliminations[0].victim, 1);
    assert_eq!(eliminations[0].killer, 2);
    assert_eq!(eliminations[0].reason, EliminationReason::TrailCut);
}

#[test]
fn test_head_on_collision_different_scores() {
    let mut state = setup_game_state();

    let mut player1 = Player::new(1, "Player1".to_string(), GridPos::new(5, 5), 0xFF0000FF);
    player1.score = 1000;
    state.players.insert(1, player1);

    let mut player2 = Player::new(2, "Player2".to_string(), GridPos::new(5, 5), 0x00FF00FF);
    player2.score = 500;
    state.players.insert(2, player2);

    let eliminations = check_collisions(&state);

    assert_eq!(eliminations.len(), 1);
    assert_eq!(eliminations[0].victim, 2);
    assert_eq!(eliminations[0].killer, 1);
    assert_eq!(eliminations[0].reason, EliminationReason::HeadCollision);
}

#[test]
fn test_head_on_collision_same_score() {
    let mut state = setup_game_state();

    let mut player1 = Player::new(1, "Player1".to_string(), GridPos::new(5, 5), 0xFF0000FF);
    player1.score = 500;
    state.players.insert(1, player1);

    let mut player2 = Player::new(2, "Player2".to_string(), GridPos::new(5, 5), 0x00FF00FF);
    player2.score = 500;
    state.players.insert(2, player2);

    let eliminations = check_collisions(&state);

    assert_eq!(eliminations.len(), 2);
    let victims: HashSet<_> = eliminations.iter().map(|e| e.victim).collect();
    assert!(victims.contains(&1));
    assert!(victims.contains(&2));
}

#[test]
fn test_invulnerable_player_not_eliminated() {
    let mut state = setup_game_state();
    setup_player_with_territory(&mut state, 1);
    setup_player_with_territory(&mut state, 2);

    let player1 = state.players.get_mut(&1).unwrap();
    player1.invulnerability_timer = 10;
    player1.trail = vec![GridPos::new(12, 10), GridPos::new(13, 10)];

    let player2 = state.players.get_mut(&2).unwrap();
    player2.position = GridPos::new(13, 10);

    let eliminations = check_collisions(&state);

    assert!(eliminations.is_empty());
}

#[test]
fn test_eliminate_player_sets_state() {
    let mut state = setup_game_state();
    setup_player_with_territory(&mut state, 1);

    // Add a trail
    state.players.get_mut(&1).unwrap().trail = vec![GridPos::new(12, 10)];

    eliminate_player(&mut state, 1, EliminationReason::TrailCut, 60);

    let player = state.get_player(1).unwrap();
    assert!(!player.alive);
    assert!(player.trail.is_empty());
    assert_eq!(player.direction, Direction::Still);
    assert_eq!(player.respawn_timer, 60);
}

#[test]
fn test_find_spawn_position_empty_map() {
    let state = GameState::new(100, 100);
    let config = PaperioConfig::default();

    let spawn_pos = find_spawn_position(&state, &config);

    assert!(spawn_pos.is_some());
    let pos = spawn_pos.unwrap();
    // Should be near center for empty map
    assert!(pos.x >= 40 && pos.x <= 60);
    assert!(pos.y >= 40 && pos.y <= 60);
}

#[test]
fn test_find_spawn_position_with_players() {
    let mut state = GameState::new(50, 50);
    let config = PaperioConfig::default();

    let player = Player::new(1, "Center".to_string(), GridPos::new(25, 25), 0xFF0000FF);
    state.players.insert(1, player);
    grant_starting_territory(&mut state.territory, 1, &GridPos::new(25, 25), 5);

    let spawn_pos = find_spawn_position(&state, &config);

    assert!(spawn_pos.is_some());
    let pos = spawn_pos.unwrap();
    let distance = pos.distance(&GridPos::new(25, 25));
    assert!(
        distance >= config.min_spawn_distance,
        "Spawn position {:?} too close to existing player (distance: {})",
        pos,
        distance
    );
}

#[test]
fn test_respawn_player_grants_invulnerability() {
    let mut state = setup_game_state();
    let config = PaperioConfig::default();

    let player = Player::new(1, "Test".to_string(), GridPos::new(10, 10), 0xFF0000FF);
    state.players.insert(1, player);
    eliminate_player(&mut state, 1, EliminationReason::Boundary, 60);

    // Respawn
    let spawn_pos = respawn_player(&mut state, 1, &config);

    assert!(spawn_pos.is_some());
    let player = state.get_player(1).unwrap();
    assert!(player.alive);
    assert!(player.is_invulnerable());
    assert_eq!(player.invulnerability_timer, config.invulnerability_ticks);
}

#[test]
fn test_no_collision_when_players_separated() {
    let mut state = setup_game_state();
    setup_player_with_territory(&mut state, 1);
    setup_player_with_territory(&mut state, 2);

    state.players.get_mut(&1).unwrap().position = GridPos::new(5, 5);
    state.players.get_mut(&2).unwrap().position = GridPos::new(15, 15);

    let eliminations = check_collisions(&state);

    assert!(eliminations.is_empty());
}

#[test]
fn test_multiple_trail_cuts_same_tick() {
    let mut state = setup_game_state();

    let mut player1 = Player::new(1, "P1".to_string(), GridPos::new(5, 5), 0xFF0000FF);
    player1.trail = vec![GridPos::new(10, 10), GridPos::new(10, 11)];
    state.players.insert(1, player1);

    let mut player2 = Player::new(2, "P2".to_string(), GridPos::new(10, 10), 0x00FF00FF);
    player2.trail = vec![GridPos::new(5, 5)];
    state.players.insert(2, player2);

    let eliminations = check_collisions(&state);

    assert_eq!(eliminations.len(), 2);
    let victims: HashSet<_> = eliminations.iter().map(|e| e.victim).collect();
    assert!(victims.contains(&1));
    assert!(victims.contains(&2));
}
