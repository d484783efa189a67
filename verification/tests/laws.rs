use rust_server::claim::claim_territory;
use rust_server::collision::{check_collisions, EliminationReason};
use rust_server::config::PaperioConfig;
use rust_server::engine::PaperioGame;
use rust_server::flood::flood_fill_from_edges;
use rust_server::game::{Game, GameError, TickResult};
use rust_server::grid::{Direction, GridPos};
use rust_server::movement::{move_player, set_player_direction, update_movement};
use rust_server::player::Player;
use rust_server::scoring::{ownership_score, update_scores};
use rust_server::spawn::{
    eliminate_player, find_spawn_position, grant_starting_territory, is_spawn_area_clear,
    respawn_player,
};
use rust_server::state::GameState;
use rust_server::territory::TerritoryGrid;
use rust_server::timers::update_timers;
use rust_server::wire::decode_input;

fn ring(territory: &mut TerritoryGrid, owner: u32, x0: i32, x1: i32, y0: i32, y1: i32) {
    for x in x0..=x1 {
        territory.set_cell_owner(&GridPos::new(x, y0), Some(owner));
        territory.set_cell_owner(&GridPos::new(x, y1), Some(owner));
    }
    for y in y0..=y1 {
        territory.set_cell_owner(&GridPos::new(x0, y), Some(owner));
        territory.set_cell_owner(&GridPos::new(x1, y), Some(owner));
    }
}

fn player_at(state: &mut GameState, id: u32, x: i32, y: i32) {
    state.players.insert(id, Player::new(id, "P".to_string(), GridPos::new(x, y), 0));
}

#[test]
fn closed_ring_encloses_exactly_its_interior() {
    let mut territory = TerritoryGrid::new(10, 10);
    ring(&mut territory, 1, 2, 6, 2, 6);
    let enclosed = flood_fill_from_edges(&territory, 1);
    let mut expected = Vec::new();
    for y in 3..=5 {
        for x in 3..=5 {
            expected.push(GridPos::new(x, y));
        }
    }
    assert_eq!(enclosed, expected);
}

#[test]
fn ring_missing_a_corner_still_encloses() {
    let mut territory = TerritoryGrid::new(10, 10);
    ring(&mut territory, 1, 2, 6, 2, 6);
    territory.set_cell_owner(&GridPos::new(2, 2), None);
    assert_eq!(flood_fill_from_edges(&territory, 1).len(), 9);
    territory.set_cell_owner(&GridPos::new(2, 4), None);
    assert_eq!(flood_fill_from_edges(&territory, 1), Vec::<GridPos>::new());
}

#[test]
fn ring_against_the_edge_encloses() {
    let mut territory = TerritoryGrid::new(6, 6);
    ring(&mut territory, 1, 0, 5, 0, 5);
    assert_eq!(flood_fill_from_edges(&territory, 1).len(), 16);
    assert_eq!(flood_fill_from_edges(&territory, 2), Vec::<GridPos>::new());
}

#[test]
fn flood_on_degenerate_grids() {
    assert_eq!(flood_fill_from_edges(&TerritoryGrid::new(0, 0), 1), Vec::<GridPos>::new());
    assert_eq!(flood_fill_from_edges(&TerritoryGrid::new(0, 7), 1), Vec::<GridPos>::new());
    assert_eq!(flood_fill_from_edges(&TerritoryGrid::new(1, 1), 1), Vec::<GridPos>::new());
    let mut line = TerritoryGrid::new(5, 1);
    line.set_cell_owner(&GridPos::new(1, 0), Some(1));
    line.set_cell_owner(&GridPos::new(3, 0), Some(1));
    assert_eq!(flood_fill_from_edges(&line, 1), Vec::<GridPos>::new());
}

#[test]
fn enclosed_cells_of_others_are_taken_too() {
    let mut territory = TerritoryGrid::new(10, 10);
    ring(&mut territory, 1, 2, 6, 2, 6);
    territory.set_cell_owner(&GridPos::new(6, 4), None);
    territory.set_cell_owner(&GridPos::new(4, 4), Some(2));
    territory.set_cell_owner(&GridPos::new(3, 3), Some(3));
    territory.set_cell_owner(&GridPos::new(5, 5), Some(2));
    let result = claim_territory(&mut territory, 1, &[GridPos::new(6, 4)]);
    assert_eq!(result.cells_claimed, 10);
    assert_eq!(result.cells_stolen, 3);
    assert_eq!(result.victims, vec![3, 2]);
    assert_eq!(territory.count_owned_by(1), 25);
    assert_eq!(territory.count_owned_by(2), 0);
    assert_eq!(territory.count_owned_by(3), 0);
}

#[test]
fn claim_counts_a_repeated_trail_cell_once() {
    let mut territory = TerritoryGrid::new(8, 8);
    territory.set_cell_owner(&GridPos::new(1, 1), Some(2));
    territory.set_cell_owner(&GridPos::new(2, 1), Some(1));
    let trail = [
        GridPos::new(1, 1),
        GridPos::new(1, 1),
        GridPos::new(2, 1),
        GridPos::new(-1, 1),
        GridPos::new(3, 1),
    ];
    let result = claim_territory(&mut territory, 1, &trail);
    assert_eq!(result.cells_claimed, 2);
    assert_eq!(result.cells_stolen, 1);
    assert_eq!(result.victims, vec![2]);
    assert_eq!(territory.count_owned_by(1), 3);
}

#[test]
fn empty_claim_leaves_the_grid_alone() {
    let mut territory = TerritoryGrid::new(10, 10);
    ring(&mut territory, 1, 2, 6, 2, 6);
    let result = claim_territory(&mut territory, 1, &[]);
    assert_eq!(result.cells_claimed, 0);
    assert_eq!(result.cells_stolen, 0);
    assert!(result.victims.is_empty());
    assert_eq!(territory.count_owned_by(1), 16);
    assert_eq!(territory.get_cell_owner(&GridPos::new(4, 4)), None);
}

#[test]
fn reversal_is_refused_with_its_reason() {
    let mut state = GameState::new(20, 20);
    player_at(&mut state, 1, 10, 10);
    assert_eq!(set_player_direction(&mut state, 2, Direction::Up), Err("Player not found"));
    assert_eq!(set_player_direction(&mut state, 1, Direction::Right), Ok(()));
    assert_eq!(set_player_direction(&mut state, 1, Direction::Left), Err("Cannot reverse direction"));
    assert_eq!(state.get_player(1).unwrap().direction, Direction::Right);
    assert_eq!(set_player_direction(&mut state, 1, Direction::Right), Ok(()));
    assert_eq!(set_player_direction(&mut state, 1, Direction::Still), Ok(()));
    assert_eq!(set_player_direction(&mut state, 1, Direction::Left), Ok(()));
    assert_eq!(set_player_direction(&mut state, 1, Direction::Right), Err("Cannot reverse direction"));
    state.players.get_mut(&1).unwrap().alive = false;
    assert_eq!(set_player_direction(&mut state, 1, Direction::Up), Err("Player is dead"));
    assert_eq!(state.get_player(1).unwrap().direction, Direction::Left);
}

#[test]
fn input_errors_are_invalid_input() {
    let mut game = PaperioGame::new();
    game.player_joined(1, "Ann".to_string()).unwrap();
    assert_eq!(game.apply_input(1, 4), Ok(()));
    assert_eq!(
        game.apply_input(1, 3),
        Err(GameError::InvalidInput("Cannot reverse direction".to_string()))
    );
    assert_eq!(
        game.apply_input(2, 3),
        Err(GameError::InvalidInput("Player not found".to_string()))
    );
    assert_eq!(game.apply_input(1, 77), Ok(()));
    assert_eq!(game.state().get_player(1).unwrap().direction, Direction::Still);
    game.state_mut().players.get_mut(&1).unwrap().alive = false;
    assert_eq!(
        game.apply_input(1, 1),
        Err(GameError::InvalidInput("Player is dead".to_string()))
    );
    let malformed = [0x08u8];
    assert!(matches!(game.handle_input(1, &malformed), Err(GameError::InvalidInput(_))));
}

#[test]
fn input_is_read_as_prost_writes_it() {
    let mut bytes = Vec::new();
    prost::encoding::int32::encode(1, &3, &mut bytes);
    assert_eq!(decode_input(&bytes).unwrap(), 3);
    assert_eq!(decode_input(&[]).unwrap(), 0);

    let mut with_others = Vec::new();
    prost::encoding::string::encode(7, &"skip me".to_string(), &mut with_others);
    prost::encoding::int32::encode(1, &2, &mut with_others);
    prost::encoding::fixed64::encode(9, &5u64, &mut with_others);
    prost::encoding::int32::encode(1, &4, &mut with_others);
    prost::encoding::uint32::encode(2, &1u32, &mut with_others);
    assert_eq!(decode_input(&with_others).unwrap(), 4);

    let mut negative = Vec::new();
    prost::encoding::int32::encode(1, &-1, &mut negative);
    assert_eq!(decode_input(&negative).unwrap(), -1);

    let mut wrong_type = Vec::new();
    prost::encoding::string::encode(1, &"up".to_string(), &mut wrong_type);
    assert!(decode_input(&wrong_type).is_err());
    assert!(decode_input(&[0x08]).is_err());
    assert!(decode_input(&[0x00, 0x01]).is_err());
    assert!(decode_input(&[0x3a, 0x05, 0x01]).is_err());
}

#[test]
fn player_at_the_left_edge_heading_left_is_eliminated() {
    let mut config = PaperioConfig::with_grid_size(20, 20);
    config.respawn_delay_ticks = 5;
    let mut game = PaperioGame::with_config(config);
    game.player_joined(1, "Ann".to_string()).unwrap();
    let player = game.state_mut().players.get_mut(&1).unwrap();
    player.position = GridPos::new(0, 10);
    player.direction = Direction::Left;
    let result = game.tick();
    assert_eq!(result.eliminated, vec![1]);
    assert!(result.respawns.is_empty());
    assert!(result.broadcast.is_none());
    assert!(result.player_updates.is_empty());
    let player = game.state().get_player(1).unwrap();
    assert!(!player.alive);
    assert_eq!(player.respawn_timer, 5);
    assert_eq!(player.position, GridPos::new(0, 10));
    assert_eq!(player.direction, Direction::Still);
}

#[test]
fn every_edge_eliminates() {
    for (x, y, direction) in [
        (5, 0, Direction::Up),
        (5, 9, Direction::Down),
        (0, 5, Direction::Left),
        (9, 5, Direction::Right),
    ] {
        let mut state = GameState::new(10, 10);
        player_at(&mut state, 1, x, y);
        state.players.get_mut(&1).unwrap().direction = direction;
        let result = move_player(&mut state, 1, &PaperioConfig::default());
        assert!(result.hit_boundary);
        assert!(!result.should_claim);
        assert_eq!(state.get_player(1).unwrap().position, GridPos::new(x, y));
    }
}

#[test]
fn rim_of_the_coordinates_is_a_boundary() {
    let mut state = GameState::new(10, 10);
    player_at(&mut state, 1, i32::MAX, 3);
    state.players.get_mut(&1).unwrap().direction = Direction::Right;
    let result = move_player(&mut state, 1, &PaperioConfig::default());
    assert!(result.hit_boundary);
}

#[test]
fn self_collision_has_no_killer() {
    let mut state = GameState::new(20, 20);
    player_at(&mut state, 4, 13, 10);
    state.players.get_mut(&4).unwrap().trail = vec![GridPos::new(12, 10), GridPos::new(13, 10)];
    let eliminations = check_collisions(&state);
    assert_eq!(eliminations.len(), 1);
    assert_eq!(eliminations[0].victim, 4);
    assert_eq!(eliminations[0].killer, 0);
    assert_eq!(eliminations[0].reason, EliminationReason::SelfCollision);
}

#[test]
fn shared_trail_cell_counts_for_the_greater_id() {
    let mut state = GameState::new(20, 20);
    player_at(&mut state, 1, 5, 5);
    player_at(&mut state, 2, 9, 9);
    state.players.get_mut(&1).unwrap().trail = vec![GridPos::new(5, 5)];
    state.players.get_mut(&2).unwrap().trail = vec![GridPos::new(5, 5)];
    let eliminations = check_collisions(&state);
    assert_eq!(eliminations.len(), 1);
    assert_eq!(eliminations[0].victim, 2);
    assert_eq!(eliminations[0].killer, 1);
    assert_eq!(eliminations[0].reason, EliminationReason::TrailCut);
}

#[test]
fn trail_cut_and_self_collision_of_one_victim() {
    let mut state = GameState::new(20, 20);
    player_at(&mut state, 1, 7, 7);
    player_at(&mut state, 2, 8, 7);
    state.players.get_mut(&2).unwrap().trail = vec![GridPos::new(7, 7), GridPos::new(8, 7)];
    let eliminations = check_collisions(&state);
    assert_eq!(eliminations.len(), 2);
    assert_eq!(eliminations[0].victim, 2);
    assert_eq!(eliminations[0].killer, 1);
    assert_eq!(eliminations[0].reason, EliminationReason::TrailCut);
    assert_eq!(eliminations[1].victim, 2);
    assert_eq!(eliminations[1].killer, 0);
    assert_eq!(eliminations[1].reason, EliminationReason::SelfCollision);

    let mut game = PaperioGame::with_config(PaperioConfig::with_grid_size(20, 20));
    *game.state_mut() = state;
    let result = game.tick();
    assert_eq!(result.eliminated, vec![2]);
}

#[test]
fn dead_and_invulnerable_players_cut_nothing() {
    let mut state = GameState::new(20, 20);
    player_at(&mut state, 1, 15, 10);
    player_at(&mut state, 2, 13, 10);
    player_at(&mut state, 3, 12, 10);
    state.players.get_mut(&1).unwrap().trail = vec![GridPos::new(12, 10), GridPos::new(13, 10)];
    state.players.get_mut(&2).unwrap().invulnerability_timer = 3;
    state.players.get_mut(&3).unwrap().alive = false;
    assert!(check_collisions(&state).is_empty());
    state.players.get_mut(&1).unwrap().alive = false;
    state.players.get_mut(&2).unwrap().invulnerability_timer = 0;
    assert!(check_collisions(&state).is_empty());
}

#[test]
fn head_on_with_unequal_scores_spares_the_leader() {
    let mut state = GameState::new(20, 20);
    for (id, score) in [(1u32, 300u32), (2, 900), (3, 500)] {
        player_at(&mut state, id, 5, 5);
        state.players.get_mut(&id).unwrap().score = score;
    }
    let eliminations = check_collisions(&state);
    assert_eq!(eliminations.len(), 2);
    assert_eq!((eliminations[0].victim, eliminations[0].killer), (3, 2));
    assert_eq!((eliminations[1].victim, eliminations[1].killer), (1, 2));
    assert_eq!(eliminations[0].reason, EliminationReason::HeadCollision);
    assert_eq!(eliminations[1].reason, EliminationReason::HeadCollision);
}

#[test]
fn head_on_tie_at_the_top_spares_the_rest() {
    let mut state = GameState::new(20, 20);
    for (id, score) in [(1u32, 900u32), (2, 100), (3, 900)] {
        player_at(&mut state, id, 5, 5);
        state.players.get_mut(&id).unwrap().score = score;
    }
    let eliminations = check_collisions(&state);
    assert_eq!(eliminations.len(), 2);
    assert_eq!((eliminations[0].victim, eliminations[0].killer), (1, 0));
    assert_eq!((eliminations[1].victim, eliminations[1].killer), (3, 0));
}

#[test]
fn invulnerable_player_takes_no_part_in_a_meeting() {
    let mut state = GameState::new(20, 20);
    for (id, score) in [(1u32, 900u32), (2, 100), (3, 50)] {
        player_at(&mut state, id, 5, 5);
        state.players.get_mut(&id).unwrap().score = score;
    }
    state.players.get_mut(&1).unwrap().invulnerability_timer = 2;
    let eliminations = check_collisions(&state);
    assert_eq!(eliminations.len(), 1);
    assert_eq!((eliminations[0].victim, eliminations[0].killer), (3, 2));
    state.players.get_mut(&2).unwrap().invulnerability_timer = 2;
    assert!(check_collisions(&state).is_empty());
}

#[test]
fn player_that_lost_its_trail_takes_no_part_in_a_meeting() {
    let mut state = GameState::new(20, 20);
    player_at(&mut state, 1, 5, 5);
    player_at(&mut state, 2, 5, 5);
    player_at(&mut state, 3, 8, 8);
    state.players.get_mut(&1).unwrap().score = 900;
    state.players.get_mut(&1).unwrap().trail = vec![GridPos::new(8, 8)];
    let eliminations = check_collisions(&state);
    assert_eq!(eliminations.len(), 1);
    assert_eq!((eliminations[0].victim, eliminations[0].killer), (1, 3));
    assert_eq!(eliminations[0].reason, EliminationReason::TrailCut);
}

#[test]
fn respawn_cycle_counts_down_and_puts_the_player_back() {
    let mut config = PaperioConfig::with_grid_size(20, 20);
    config.respawn_delay_ticks = 3;
    config.invulnerability_ticks = 7;
    let mut game = PaperioGame::with_config(config);
    game.player_joined(1, "Ann".to_string()).unwrap();
    eliminate_player(game.state_mut(), 1, EliminationReason::TrailCut, 3);
    assert!(!game.state().get_player(1).unwrap().alive);
    assert_eq!(game.state().get_player(1).unwrap().respawn_timer, 3);
    assert!(game.state().get_player(1).unwrap().is_respawning());

    let first = game.tick();
    assert!(first.respawns.is_empty());
    assert!(!game.state().get_player(1).unwrap().alive);
    assert_eq!(game.state().get_player(1).unwrap().respawn_timer, 2);

    let second = game.tick();
    assert!(second.respawns.is_empty());
    assert_eq!(game.state().get_player(1).unwrap().respawn_timer, 1);

    let third = game.tick();
    assert_eq!(third.respawns, vec![1]);
    assert!(third.eliminated.is_empty());
    let player = game.state().get_player(1).unwrap();
    assert!(player.alive);
    assert_eq!(player.respawn_timer, 0);
    assert_eq!(player.invulnerability_timer, 7);
    assert_eq!(player.direction, Direction::Still);
    assert_eq!(player.position, GridPos::new(10, 10));

    game.tick();
    assert_eq!(game.state().get_player(1).unwrap().invulnerability_timer, 6);
}

#[test]
fn timers_run_for_the_dead_and_the_living() {
    let mut state = GameState::new(20, 20);
    player_at(&mut state, 1, 1, 1);
    player_at(&mut state, 2, 2, 2);
    player_at(&mut state, 3, 3, 3);
    {
        let p = state.players.get_mut(&1).unwrap();
        p.respawn_timer = 4;
        p.invulnerability_timer = 1;
    }
    {
        let p = state.players.get_mut(&2).unwrap();
        p.alive = false;
        p.respawn_timer = 1;
        p.invulnerability_timer = 9;
    }
    {
        let p = state.players.get_mut(&3).unwrap();
        p.alive = false;
        p.respawn_timer = 0;
    }
    assert_eq!(update_timers(&mut state), vec![2]);
    assert_eq!(state.get_player(1).unwrap().respawn_timer, 4);
    assert_eq!(state.get_player(1).unwrap().invulnerability_timer, 0);
    assert_eq!(state.get_player(2).unwrap().respawn_timer, 0);
    assert_eq!(state.get_player(2).unwrap().invulnerability_timer, 8);
    assert_eq!(state.get_player(3).unwrap().respawn_timer, 0);
    assert_eq!(update_timers(&mut state), Vec::<u32>::new());
}

#[test]
fn score_is_the_share_in_hundredths_of_a_percent() {
    let mut territory = TerritoryGrid::new(10, 10);
    for x in 0..10 {
        territory.set_cell_owner(&GridPos::new(x, 0), Some(1));
    }
    assert_eq!(ownership_score(&territory, 1), 1000);
    assert_eq!(ownership_score(&territory, 2), 0);
    let mut thirds = TerritoryGrid::new(3, 1);
    thirds.set_cell_owner(&GridPos::new(0, 0), Some(1));
    assert_eq!(ownership_score(&thirds, 1), 3333);
    thirds.set_cell_owner(&GridPos::new(1, 0), Some(1));
    assert_eq!(ownership_score(&thirds, 1), 6666);
    thirds.set_cell_owner(&GridPos::new(2, 0), Some(1));
    assert_eq!(ownership_score(&thirds, 1), 10000);
    assert_eq!(ownership_score(&TerritoryGrid::new(0, 0), 1), 0);

    let mut state = GameState::new(3, 1);
    player_at(&mut state, 1, 0, 0);
    player_at(&mut state, 2, 0, 0);
    state.territory.set_cell_owner(&GridPos::new(0, 0), Some(2));
    state.players.get_mut(&1).unwrap().score = 55;
    update_scores(&mut state);
    assert_eq!(state.get_player(1).unwrap().score, 0);
    assert_eq!(state.get_player(2).unwrap().score, 3333);
}

#[test]
fn spawn_search_prefers_the_center_then_the_rings() {
    let config = PaperioConfig::default();
    let empty = GameState::new(100, 100);
    assert_eq!(find_spawn_position(&empty, &config), Some(GridPos::new(50, 50)));
    assert_eq!(find_spawn_position(&GameState::new(0, 0), &config), Some(GridPos::new(0, 0)));

    let mut state = GameState::new(100, 100);
    player_at(&mut state, 1, 50, 50);
    assert_eq!(find_spawn_position(&state, &config), Some(GridPos::new(42, 42)));

    let mut far = GameState::new(100, 100);
    player_at(&mut far, 1, 90, 90);
    assert_eq!(find_spawn_position(&far, &config), Some(GridPos::new(50, 50)));
    grant_starting_territory(&mut far.territory, 2, &GridPos::new(50, 50), 3);
    assert_eq!(find_spawn_position(&far, &config), Some(GridPos::new(48, 48)));
}

#[test]
fn spawn_search_falls_back_to_the_farthest_candidate() {
    let config = PaperioConfig::default();
    let mut state = GameState::new(12, 12);
    player_at(&mut state, 1, 6, 6);
    assert_eq!(find_spawn_position(&state, &config), Some(GridPos::new(3, 3)));

    let mut tiny = GameState::new(5, 5);
    player_at(&mut tiny, 1, 2, 2);
    assert_eq!(find_spawn_position(&tiny, &config), Some(GridPos::new(2, 2)));

    let mut dead = GameState::new(12, 12);
    player_at(&mut dead, 1, 6, 6);
    dead.players.get_mut(&1).unwrap().alive = false;
    assert_eq!(find_spawn_position(&dead, &config), Some(GridPos::new(6, 6)));
}

#[test]
fn spawn_area_is_clear_below_a_quarter() {
    let mut territory = TerritoryGrid::new(10, 10);
    let center = GridPos::new(5, 5);
    assert!(is_spawn_area_clear(&territory, &center, 3));
    territory.set_cell_owner(&GridPos::new(4, 4), Some(2));
    assert!(is_spawn_area_clear(&territory, &center, 3));
    territory.set_cell_owner(&GridPos::new(6, 6), Some(3));
    assert!(is_spawn_area_clear(&territory, &center, 3));
    territory.set_cell_owner(&GridPos::new(5, 4), Some(3));
    assert!(!is_spawn_area_clear(&territory, &center, 3));
    assert!(!is_spawn_area_clear(&territory, &center, 0));
    assert!(is_spawn_area_clear(&territory, &center, 1));
    assert!(!is_spawn_area_clear(&territory, &GridPos::new(4, 4), 1));
    assert!(is_spawn_area_clear(&territory, &GridPos::new(0, 0), 3));
    assert!(is_spawn_area_clear(&territory, &center, 4));
    territory.set_cell_owner(&GridPos::new(3, 3), Some(3));
    assert!(!is_spawn_area_clear(&territory, &center, 4));
    assert!(is_spawn_area_clear(&territory, &center, 5));
    for x in 3..=5 {
        territory.set_cell_owner(&GridPos::new(x, 7), Some(1));
    }
    assert!(!is_spawn_area_clear(&territory, &center, 5));
}

#[test]
fn spawn_at_a_center_with_two_of_nine_cells_owned() {
    let config = PaperioConfig::default();
    let mut state = GameState::new(100, 100);
    player_at(&mut state, 1, 90, 90);
    state.territory.set_cell_owner(&GridPos::new(49, 49), Some(2));
    state.territory.set_cell_owner(&GridPos::new(51, 51), Some(2));
    assert_eq!(find_spawn_position(&state, &config), Some(GridPos::new(50, 50)));
    state.territory.set_cell_owner(&GridPos::new(50, 50), Some(2));
    assert_eq!(find_spawn_position(&state, &config), Some(GridPos::new(49, 49)));
}

#[test]
fn decode_failure_names_the_field() {
    let mut game = PaperioGame::new();
    game.player_joined(1, "Ann".to_string()).unwrap();
    let mut wrong_type = Vec::new();
    prost::encoding::string::encode(1, &"up".to_string(), &mut wrong_type);
    assert_eq!(
        game.handle_input(1, &wrong_type),
        Err(GameError::InvalidInput(
            "Failed to decode input: failed to decode Protobuf message: \
             PaperioInput.direction: invalid wire type: LengthDelimited (expected Varint)"
                .to_string()
        ))
    );
    assert_eq!(
        game.handle_input(1, &[0x08]),
        Err(GameError::InvalidInput(
            "Failed to decode input: failed to decode Protobuf message: \
             PaperioInput.direction: invalid varint"
                .to_string()
        ))
    );
    assert_eq!(
        game.handle_input(1, &[0x00, 0x01]),
        Err(GameError::InvalidInput(
            "Failed to decode input: failed to decode Protobuf message: invalid tag value: 0"
                .to_string()
        ))
    );
    assert_eq!(game.state().get_player(1).unwrap().direction, Direction::Still);
}

#[test]
fn grant_is_clipped_and_overwrites() {
    let mut territory = TerritoryGrid::new(10, 10);
    territory.set_cell_owner(&GridPos::new(0, 0), Some(2));
    grant_starting_territory(&mut territory, 1, &GridPos::new(0, 0), 3);
    assert_eq!(territory.count_owned_by(1), 4);
    assert_eq!(territory.count_owned_by(2), 0);
    grant_starting_territory(&mut territory, 3, &GridPos::new(5, 5), 4);
    assert_eq!(territory.count_owned_by(3), 25);
    grant_starting_territory(&mut territory, 4, &GridPos::new(8, 8), 0);
    assert_eq!(territory.count_owned_by(4), 1);
    grant_starting_territory(&mut territory, 5, &GridPos::new(-5, 50), 3);
    assert_eq!(territory.count_owned_by(5), 0);
    grant_starting_territory(&mut territory, 6, &GridPos::new(i32::MAX, i32::MIN), 5);
    assert_eq!(territory.count_owned_by(6), 0);
}

#[test]
fn respawn_of_an_unknown_player_still_grants_the_block() {
    let mut state = GameState::new(20, 20);
    let config = PaperioConfig::default();
    assert_eq!(respawn_player(&mut state, 9, &config), Some(GridPos::new(10, 10)));
    assert!(state.get_player(9).is_none());
    assert_eq!(state.territory.count_owned_by(9), 9);
}

#[test]
fn movement_leaves_a_trail_and_claims_on_return() {
    let mut state = GameState::new(20, 20);
    player_at(&mut state, 1, 10, 10);
    grant_starting_territory(&mut state.territory, 1, &GridPos::new(10, 10), 3);
    let config = PaperioConfig::default();
    state.players.get_mut(&1).unwrap().direction = Direction::Right;
    assert!(update_movement(&mut state, &config).is_empty());
    assert!(state.get_player(1).unwrap().trail.is_empty());
    assert!(update_movement(&mut state, &config).is_empty());
    assert_eq!(state.get_player(1).unwrap().trail, vec![GridPos::new(11, 10)]);
    state.players.get_mut(&1).unwrap().direction = Direction::Down;
    assert!(update_movement(&mut state, &config).is_empty());
    assert_eq!(
        state.get_player(1).unwrap().trail,
        vec![GridPos::new(11, 10), GridPos::new(12, 10)]
    );
    state.players.get_mut(&1).unwrap().direction = Direction::Left;
    let results = update_movement(&mut state, &config);
    assert_eq!(results.len(), 1);
    assert_eq!(results[0].0, 1);
    assert!(results[0].1.should_claim);
    assert!(!results[0].1.hit_boundary);
    assert_eq!(
        results[0].1.trail_to_claim,
        vec![GridPos::new(11, 10), GridPos::new(12, 10), GridPos::new(11, 11)]
    );
    assert!(state.get_player(1).unwrap().trail.is_empty());
    assert_eq!(state.get_player(1).unwrap().position, GridPos::new(11, 11));
}

#[test]
fn tick_claims_what_the_trail_encloses() {
    let mut game = PaperioGame::with_config(PaperioConfig::with_grid_size(20, 20));
    game.player_joined(1, "Ann".to_string()).unwrap();
    assert_eq!(game.state().territory.count_owned_by(1), 9);
    assert_eq!(game.state().get_player(1).unwrap().score, 225);
    let moves = [
        (4, 3),
        (2, 3),
        (3, 3),
        (1, 2),
    ];
    for (code, ticks) in moves {
        game.apply_input(1, code).unwrap();
        for _ in 0..ticks {
            game.tick();
        }
    }
    assert_eq!(game.state().get_player(1).unwrap().position, GridPos::new(10, 11));
    assert!(game.state().get_player(1).unwrap().trail.is_empty());
    assert_eq!(game.state().territory.count_owned_by(1), 17);
    assert_eq!(game.state().get_player(1).unwrap().score, 425);
    assert_eq!(game.current_tick(), 11);
}

#[test]
fn leaving_releases_the_territory_and_joining_replaces() {
    let mut game = PaperioGame::with_config(PaperioConfig::with_grid_size(40, 40));
    assert_eq!(game.player_joined(1, "Ann".to_string()), Ok(Vec::new()));
    assert_eq!(game.player_joined(2, "Bob".to_string()), Ok(Vec::new()));
    let bob = game.state().get_player(2).unwrap();
    assert_eq!(bob.color, 0x3357FFFF);
    assert_eq!(bob.invulnerability_timer, 40);
    assert_eq!(bob.score, 56);
    game.player_left(7);
    assert_eq!(game.state().players.len(), 2);
    game.player_left(1);
    assert_eq!(game.state().players.len(), 1);
    assert_eq!(game.state().territory.count_owned_by(1), 0);
    assert_eq!(game.state().territory.count_owned_by(2), 9);
    game.state_mut().players.get_mut(&2).unwrap().score = 1;
    game.player_joined(2, "Rob".to_string()).unwrap();
    assert_eq!(game.state().players.len(), 1);
    assert_eq!(game.state().get_player(2).unwrap().name, "Rob");
    assert!(game.encode_state().is_empty());
    assert!(game.encode_state_for_player(2).is_empty());
    assert!(!game.is_game_over());
    assert!(game.get_winners().is_empty());
}

#[test]
fn tick_result_starts_empty() {
    let result = TickResult::default();
    assert!(result.broadcast.is_none());
    assert!(result.player_updates.is_empty());
    assert!(result.eliminated.is_empty());
    assert!(result.respawns.is_empty());
}

#[test]
fn reasons_in_words() {
    assert_eq!(EliminationReason::TrailCut.describe(), "trail was cut");
    assert_eq!(EliminationReason::SelfCollision.describe(), "crossed own trail");
    assert_eq!(EliminationReason::HeadCollision.describe(), "head-on collision");
    assert_eq!(EliminationReason::Boundary.describe(), "hit boundary");
}

#[test]
fn every_cell_keeps_one_owner_through_ticks() {
    let mut game = PaperioGame::with_config(PaperioConfig::with_grid_size(30, 30));
    for id in 1..=4 {
        game.player_joined(id, "P".to_string()).unwrap();
    }
    for (id, code) in [(1, 1), (2, 2), (3, 3), (4, 4)] {
        game.apply_input(id, code).unwrap();
    }
    for _ in 0..40 {
        game.tick();
        let territory = &game.state().territory;
        let mut owned = 0;
        for id in 1..=4 {
            owned += territory.count_owned_by(id);
        }
        let mut seen = 0;
        for y in 0..30 {
            for x in 0..30 {
                if territory.get_cell_owner(&GridPos::new(x, y)).is_some() {
                    seen += 1;
                }
            }
        }
        assert_eq!(owned, seen);
        assert_eq!(territory.get_total_cells(), 900);
    }
}
