use rust_server::grid::{Direction, GridPos};
use rust_server::player::Player;
use rust_server::state::GameState;
use rust_server::territory::TerritoryGrid;

#[test]
fn test_grid_pos_operations() {
    let pos = GridPos::new(5, 10);
    assert_eq!(pos.offset(1, -1), GridPos::new(6, 9));
    assert_eq!(pos.moved(Direction::Up), GridPos::new(5, 9));
    assert_eq!(pos.moved(Direction::Right), GridPos::new(6, 10));
}

#[test]
fn test_grid_pos_distance() {
    let a = GridPos::new(0, 0);
    let b = GridPos::new(3, 4);
    assert_eq!(a.distance(&b), 7); // Manhattan distance
}

#[test]
fn test_direction_delta() {
    assert_eq!(Direction::Up.delta(), (0, -1));
    assert_eq!(Direction::Down.delta(), (0, 1));
    assert_eq!(Direction::Left.delta(), (-1, 0));
    assert_eq!(Direction::Right.delta(), (1, 0));
    assert_eq!(Direction::Still.delta(), (0, 0));
}

#[test]
fn test_direction_opposite() {
    assert!(Direction::Up.is_opposite(&Direction::Down));
    assert!(Direction::Left.is_opposite(&Direction::Right));
    assert!(!Direction::Up.is_opposite(&Direction::Left));
    assert!(!Direction::Still.is_opposite(&Direction::Up));
}

#[test]
fn test_territory_grid() {
    let mut grid = TerritoryGrid::new(10, 10);
    let pos = GridPos::new(5, 5);

    assert!(grid.in_bounds(&pos));
    assert!(!grid.in_bounds(&GridPos::new(-1, 0)));
    assert!(!grid.in_bounds(&GridPos::new(10, 5)));

    assert_eq!(grid.get_cell_owner(&pos), None);
    grid.set_cell_owner(&pos, Some(1));
    assert_eq!(grid.get_cell_owner(&pos), Some(1));
    assert!(grid.is_owned_by(&pos, 1));
}

#[test]
fn test_player_state() {
    let player = Player::new(1, "Test".to_string(), GridPos::new(0, 0), 0xFF0000FF);
    assert!(player.alive);
    assert!(!player.has_trail());
    assert!(!player.is_invulnerable());
}

#[test]
fn test_game_state() {
    let state = GameState::new(100, 100);
    assert_eq!(state.players.len(), 0);
    assert_eq!(state.territory.get_grid_dimensions(), (100, 100));
}

#[test]
fn grid_pos_add_and_sub() {
    let a = GridPos::new(5, -3);
    let b = GridPos::new(-2, 7);
    assert_eq!(a + b, GridPos::new(3, 4));
    assert_eq!(a - b, GridPos::new(7, -10));
}

#[test]
fn checked_moved_stops_at_the_rim_of_the_coordinates() {
    assert_eq!(GridPos::new(i32::MAX, 0).checked_moved(Direction::Right), None);
    assert_eq!(GridPos::new(0, i32::MIN).checked_moved(Direction::Up), None);
    assert_eq!(
        GridPos::new(i32::MAX, 0).checked_moved(Direction::Left),
        Some(GridPos::new(i32::MAX - 1, 0))
    );
    assert_eq!(GridPos::new(4, 4).checked_moved(Direction::Still), Some(GridPos::new(4, 4)));
    assert_eq!(GridPos::new(4, 4).checked_moved(Direction::Down), Some(GridPos::new(4, 5)));
}

#[test]
fn wide_distance_has_no_bound() {
    let a = GridPos::new(i32::MIN, i32::MIN);
    let b = GridPos::new(i32::MAX, i32::MAX);
    assert_eq!(a.wide_distance(&b), 2 * (u32::MAX as u64));
    assert_eq!(b.wide_distance(&a), 2 * (u32::MAX as u64));
    assert_eq!(a.wide_distance(&a), 0);
    assert_eq!(GridPos::new(-2, 5).distance(&GridPos::new(3, -1)), 11);
}

#[test]
fn opposite_of_each_direction() {
    assert_eq!(Direction::Up.get_opposite(), Direction::Down);
    assert_eq!(Direction::Down.get_opposite(), Direction::Up);
    assert_eq!(Direction::Left.get_opposite(), Direction::Right);
    assert_eq!(Direction::Right.get_opposite(), Direction::Left);
    assert_eq!(Direction::Still.get_opposite(), Direction::Still);
    assert_eq!(Direction::default(), Direction::Still);
    assert!(!Direction::Still.is_opposite(&Direction::Still));
    assert!(Direction::Right.is_opposite(&Direction::Left));
    assert!(!Direction::Right.is_opposite(&Direction::Still));
}

#[test]
fn every_cell_has_at_most_one_owner() {
    let mut grid = TerritoryGrid::new(4, 3);
    let pos = GridPos::new(2, 1);
    grid.set_cell_owner(&pos, Some(1));
    grid.set_cell_owner(&pos, Some(2));
    assert_eq!(grid.get_cell_owner(&pos), Some(2));
    assert!(!grid.is_owned_by(&pos, 1));
    assert!(grid.is_owned_by(&pos, 2));
    assert_eq!(grid.count_owned_by(1), 0);
    assert_eq!(grid.count_owned_by(2), 1);
    grid.set_cell_owner(&pos, None);
    assert_eq!(grid.get_cell_owner(&pos), None);
    assert_eq!(grid.count_owned_by(2), 0);
}

#[test]
fn cells_outside_the_grid_are_never_owned() {
    let mut grid = TerritoryGrid::new(4, 3);
    grid.set_cell_owner(&GridPos::new(4, 0), Some(1));
    grid.set_cell_owner(&GridPos::new(0, 3), Some(1));
    grid.set_cell_owner(&GridPos::new(-1, -1), Some(1));
    assert_eq!(grid.count_owned_by(1), 0);
    assert_eq!(grid.get_cell_owner(&GridPos::new(4, 0)), None);
    assert_eq!(grid.pos_to_index(&GridPos::new(4, 0)), None);
    assert_eq!(grid.pos_to_index(&GridPos::new(3, 2)), Some(11));
    assert_eq!(grid.pos_to_index(&GridPos::new(1, 1)), Some(5));
    assert_eq!(grid.index_to_pos(5), Some(GridPos::new(1, 1)));
    assert_eq!(grid.get_total_cells(), 12);
}

#[test]
fn owned_cells_come_row_by_row() {
    let mut grid = TerritoryGrid::new(4, 3);
    grid.set_cell_owner(&GridPos::new(3, 2), Some(7));
    grid.set_cell_owner(&GridPos::new(1, 0), Some(7));
    grid.set_cell_owner(&GridPos::new(0, 2), Some(7));
    grid.set_cell_owner(&GridPos::new(2, 1), Some(8));
    assert_eq!(
        grid.get_owned_cells(7),
        vec![GridPos::new(1, 0), GridPos::new(0, 2), GridPos::new(3, 2)]
    );
    assert_eq!(grid.get_owned_cells(8), vec![GridPos::new(2, 1)]);
    assert_eq!(grid.get_owned_cells(9), Vec::<GridPos>::new());
}

#[test]
fn empty_grid_has_no_cells() {
    let grid = TerritoryGrid::new(0, 5);
    assert_eq!(grid.get_total_cells(), 0);
    assert!(!grid.in_bounds(&GridPos::new(0, 0)));
    assert_eq!(grid.count_owned_by(1), 0);
    assert_eq!(grid.get_grid_dimensions(), (0, 5));
}

#[test]
fn player_ids_come_in_ascending_order() {
    let mut state = GameState::new(10, 10);
    for id in [9u32, 2, 30, 4, 1] {
        state.players.insert(id, Player::new(id, "P".to_string(), GridPos::new(1, 1), 0));
    }
    state.players.get_mut(&4).unwrap().alive = false;
    assert_eq!(state.get_player_ids(), vec![1, 2, 4, 9, 30]);
    assert_eq!(state.get_alive_ids(), vec![1, 2, 9, 30]);
    assert_eq!(state.get_alive_count(), 4);
    let alive: Vec<u32> = state.get_alive_players().iter().map(|p| p.id).collect();
    assert_eq!(alive, vec![1, 2, 9, 30]);
    assert!(state.get_player(4).is_some());
    assert!(state.get_player(5).is_none());
    state.get_player_mut(9).unwrap().score = 77;
    assert_eq!(state.get_player(9).unwrap().score, 77);
    assert!(state.get_player_mut(5).is_none());
}

#[test]
fn new_player_starts_still_and_vulnerable() {
    let mut player = Player::new(3, "Ann".to_string(), GridPos::new(2, 4), 0x11223344);
    assert_eq!(player.id, 3);
    assert_eq!(player.name, "Ann");
    assert_eq!(player.position, GridPos::new(2, 4));
    assert_eq!(player.direction, Direction::Still);
    assert_eq!(player.score, 0);
    assert_eq!(player.color, 0x11223344);
    assert_eq!(player.respawn_timer, 0);
    assert_eq!(player.invulnerability_timer, 0);
    assert!(!player.is_respawning());
    player.alive = false;
    assert!(!player.is_respawning());
    player.respawn_timer = 2;
    assert!(player.is_respawning());
    player.invulnerability_timer = 1;
    assert!(player.is_invulnerable());
}
