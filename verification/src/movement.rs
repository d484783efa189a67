use vstd::prelude::*;
use crate::config::PaperioConfig;
use crate::game::PlayerId;
use crate::grid::Direction;
use crate::grid::GridPos;
use crate::player::Player;
use crate::player::PlayerView;
use crate::roster::lemma_ascending_ids;
use crate::state::GameState;
use crate::state::StateView;
use crate::territory::GridView;
use crate::territory::TerritoryGrid;

verus! {

/// What one step of one player calls for.
#[derive(Debug)]
pub struct MoveResult {
    /// The player came home with a trail, which is now to be claimed.
    pub should_claim: bool,
    /// The step would have left the grid; the player did not move.
    pub hit_boundary: bool,
    /// The completed trail, where `should_claim` is set.
    pub trail_to_claim: Vec<GridPos>,
}

/// The mathematical content of a [`MoveResult`].
pub struct MoveReport {
    pub should_claim: bool,
    pub hit_boundary: bool,
    pub trail_to_claim: Seq<GridPos>,
}

impl View for MoveResult {
    type V = MoveReport;

    open spec fn view(&self) -> MoveReport {
        MoveReport {
            should_claim: self.should_claim,
            hit_boundary: self.hit_boundary,
            trail_to_claim: self.trail_to_claim@,
        }
    }
}

impl Default for MoveResult {
    fn default() -> (result: Self)
        ensures
            result@ == MoveReport::nothing(),
    {
        Self { should_claim: false, hit_boundary: false, trail_to_claim: Vec::new() }
    }
}

impl MoveReport {
    /// A step that calls for nothing.
    pub open spec fn nothing() -> MoveReport {
        MoveReport { should_claim: false, hit_boundary: false, trail_to_claim: Seq::empty() }
    }

    /// A step that ran into the edge of the grid.
    pub open spec fn boundary() -> MoveReport {
        MoveReport { should_claim: false, hit_boundary: true, trail_to_claim: Seq::empty() }
    }

    /// A step that completed `trail`.
    pub open spec fn claim(trail: Seq<GridPos>) -> MoveReport {
        MoveReport { should_claim: true, hit_boundary: false, trail_to_claim: trail }
    }

    /// Whether the orchestrator has to act on the report.
    pub open spec fn matters(self) -> bool {
        self.should_claim || self.hit_boundary
    }
}

/// `trail` with `pos` at its end, unless it ends there already.
pub open spec fn appended(trail: Seq<GridPos>, pos: GridPos) -> Seq<GridPos> {
    if trail.len() > 0 && trail.last() == pos {
        trail
    } else {
        trail.push(pos)
    }
}

/// The direction that a wire code stands for; unknown codes mean standing
/// still.
pub open spec fn spec_direction_from_proto(value: i32) -> Direction {
    if value == 1 {
        Direction::Up
    } else if value == 2 {
        Direction::Down
    } else if value == 3 {
        Direction::Left
    } else if value == 4 {
        Direction::Right
    } else {
        Direction::Still
    }
}

/// The wire code of a direction.
pub open spec fn spec_direction_to_proto(direction: Direction) -> i32 {
    match direction {
        Direction::Still => 0,
        Direction::Up => 1,
        Direction::Down => 2,
        Direction::Left => 3,
        Direction::Right => 4,
    }
}

impl PlayerView {
    /// Whether the next step along the heading stays on the grid.
    pub open spec fn can_step(self, g: GridView) -> bool {
        self.position.can_move(self.direction) && g.in_bounds(
            self.position.spec_moved(self.direction),
        )
    }

    /// The player after one step along its heading. A dead player and one
    /// facing the edge stay as they are. Stepping onto a cell that is not
    /// its own, the player leaves the cell it came from on its trail.
    /// Stepping home, it loses the trail.
    pub open spec fn stepped(self, g: GridView, id: PlayerId) -> PlayerView {
        if !self.alive || !self.can_step(g) {
            self
        } else {
            let next = self.position.spec_moved(self.direction);
            if !g.is_owned_by(next, id) {
                PlayerView { position: next, trail: appended(self.trail, self.position), ..self }
            } else {
                PlayerView { position: next, trail: Seq::empty(), ..self }
            }
        }
    }

    /// What the step calls for: nothing, an elimination at the edge, or the
    /// claim of the trail completed by the cell stepped on.
    pub open spec fn step_report(self, g: GridView, id: PlayerId) -> MoveReport {
        if !self.alive {
            MoveReport::nothing()
        } else if !self.can_step(g) {
            MoveReport::boundary()
        } else {
            let next = self.position.spec_moved(self.direction);
            if g.is_owned_by(next, id) && self.trail.len() > 0 {
                MoveReport::claim(appended(self.trail, next))
            } else {
                MoveReport::nothing()
            }
        }
    }

    /// Whether the player takes a step this tick.
    pub open spec fn is_moving(self) -> bool {
        self.alive && self.direction != Direction::Still
    }

    /// Why the heading cannot be set to `direction`, if it cannot.
    pub open spec fn turn_refusal(self, direction: Direction) -> Option<Seq<char>> {
        if !self.alive {
            Some("Player is dead"@)
        } else if self.direction.spec_is_opposite(direction) {
            Some("Cannot reverse direction"@)
        } else {
            None
        }
    }
}

impl StateView {
    /// The state after `id` takes one step; an unknown id changes nothing.
    pub open spec fn step_player(self, id: PlayerId) -> StateView {
        if self.players.contains_key(id) {
            StateView {
                players: self.players.insert(id, self.players[id].stepped(self.territory, id)),
                ..self
            }
        } else {
            self
        }
    }

    /// What a step of `id` calls for.
    pub open spec fn step_report(self, id: PlayerId) -> MoveReport {
        if self.players.contains_key(id) {
            self.players[id].step_report(self.territory, id)
        } else {
            MoveReport::nothing()
        }
    }

    /// Whether `id` is a player that takes a step this tick.
    pub open spec fn is_moving(self, id: PlayerId) -> bool {
        self.players.contains_key(id) && self.players[id].is_moving()
    }

    /// The state after every moving player has taken its step.
    pub open spec fn moved(self) -> StateView {
        StateView {
            players: Map::new(
                |id: PlayerId| self.players.contains_key(id),
                |id: PlayerId|
                    if self.players[id].is_moving() {
                        self.players[id].stepped(self.territory, id)
                    } else {
                        self.players[id]
                    },
            ),
            ..self
        }
    }

    /// Of the players `ids`, those whose step calls for something, each
    /// with its report.
    pub open spec fn move_reports_of(self, ids: Seq<PlayerId>) -> Seq<(PlayerId, MoveReport)>
        decreases ids.len(),
    {
        if ids.len() == 0 {
            Seq::empty()
        } else {
            let rest = self.move_reports_of(ids.drop_last());
            let id = ids.last();
            if self.is_moving(id) && self.step_report(id).matters() {
                rest.push((id, self.step_report(id)))
            } else {
                rest
            }
        }
    }

    /// The reports of this tick's movement, by ascending player id.
    pub open spec fn move_reports(self) -> Seq<(PlayerId, MoveReport)> {
        self.move_reports_of(self.ids())
    }

    /// Why the heading of `id` cannot be set to `direction`, if it cannot.
    pub open spec fn turn_refusal(self, id: PlayerId, direction: Direction) -> Option<Seq<char>> {
        if !self.players.contains_key(id) {
            Some("Player not found"@)
        } else {
            self.players[id].turn_refusal(direction)
        }
    }

    /// The state after `id` turns to `direction`.
    pub open spec fn turned(self, id: PlayerId, direction: Direction) -> StateView {
        StateView {
            players: self.players.insert(id, PlayerView { direction, ..self.players[id] }),
            ..self
        }
    }
}

/// Whether `pos` is a cell of `player_id`.
pub fn is_in_own_territory(territory: &TerritoryGrid, player_id: PlayerId, pos: &GridPos) -> (own:
    bool)
    ensures
        own == territory@.is_owned_by(*pos, player_id),
{
    territory.is_owned_by(pos, player_id)
}

/// Puts `pos` at the end of the player's trail, unless the trail ends there
/// already.
pub fn add_to_trail(player: &mut Player, pos: GridPos)
    ensures
        final(player)@ == (PlayerView { trail: appended(old(player)@.trail, pos), ..old(player)@ }),
{
    let n = player.trail.len();
    if n == 0 || player.trail[n - 1] != pos {
        player.trail.push(pos);
    }
}

/// Empties the player's trail.
pub fn clear_trail(player: &mut Player)
    ensures
        final(player)@ == (PlayerView { trail: Seq::empty(), ..old(player)@ }),
{
    player.trail.clear();
}

/// Sets the heading of a player. Refused, with nothing changed, where the
/// player is unknown or dead, or where the new heading is the exact
/// opposite of the one it moves along.
pub fn set_player_direction(state: &mut GameState, player_id: PlayerId, new_direction: Direction) -> (result:
    Result<(), &'static str>)
    ensures
        match result {
            Ok(_) => {
                &&& old(state)@.turn_refusal(player_id, new_direction).is_none()
                &&& final(state)@ == old(state)@.turned(player_id, new_direction)
            },
            Err(reason) => {
                &&& old(state)@.turn_refusal(player_id, new_direction) == Some(reason@)
                &&& final(state)@ == old(state)@
            },
        },
{
    match state.get_player_mut(player_id) {
        None => Err("Player not found"),
        Some(player) => {
            if !player.alive {
                proof {
                    assert(old(state)@.players.insert(player_id, player@) =~= old(
                        state,
                    )@.players);
                }
                Err("Player is dead")
            } else if player.direction.is_opposite(&new_direction) {
                proof {
                    assert(old(state)@.players.insert(player_id, player@) =~= old(
                        state,
                    )@.players);
                }
                Err("Cannot reverse direction")
            } else {
                player.direction = new_direction;
                Ok(())
            }
        },
    }
}

pub fn direction_from_proto(value: i32) -> (direction: Direction)
    ensures
        direction == spec_direction_from_proto(value),
{
    if value == 1 {
        Direction::Up
    } else if value == 2 {
        Direction::Down
    } else if value == 3 {
        Direction::Left
    } else if value == 4 {
        Direction::Right
    } else {
        Direction::Still
    }
}

pub fn direction_to_proto(direction: Direction) -> (value: i32)
    ensures
        value == spec_direction_to_proto(direction),
{
    match direction {
        Direction::Still => 0,
        Direction::Up => 1,
        Direction::Down => 2,
        Direction::Left => 3,
        Direction::Right => 4,
    }
}

/// Every direction survives the trip over the wire.
pub proof fn law_direction_roundtrip(direction: Direction)
    ensures
        spec_direction_from_proto(spec_direction_to_proto(direction)) == direction,
{
}

/// Moves one player one cell along its heading and says what that calls
/// for. At the edge of the grid the player stays where it is and the report
/// says so; taking the player out is the caller's business.
pub fn move_player(state: &mut GameState, player_id: PlayerId, config: &PaperioConfig) -> (result:
    MoveResult)
    ensures
        final(state)@ == old(state)@.step_player(player_id),
        result@ == old(state)@.step_report(player_id),
{
    let mut result = MoveResult::default();
    let ghost before = state@;
    let (current, direction, alive) = match state.get_player(player_id) {
        Some(player) => (player.position, player.direction, player.alive),
        None => {
            return result;
        },
    };
    if !alive {
        proof {
            assert(before.players.insert(player_id, before.players[player_id]) =~= before.players);
        }
        return result;
    }
    let next = match current.checked_moved(direction) {
        Some(next) => next,
        None => {
            result.hit_boundary = true;
            proof {
                assert(before.players.insert(player_id, before.players[player_id])
                    =~= before.players);
            }
            return result;
        },
    };
    if !state.territory.in_bounds(&next) {
        result.hit_boundary = true;
        proof {
            assert(before.players.insert(player_id, before.players[player_id]) =~= before.players);
        }
        return result;
    }
    let home = is_in_own_territory(&state.territory, player_id, &next);
    match state.get_player_mut(player_id) {
        Some(player) => {
            if !home {
                add_to_trail(player, current);
            }
            if home && player.has_trail() {
                add_to_trail(player, next);
                std::mem::swap(&mut player.trail, &mut result.trail_to_claim);
                result.should_claim = true;
            }
            player.position = next;
            proof {
                let was = before.players[player_id];
                assert(was.can_step(before.territory));
                assert(player@.trail =~= was.stepped(before.territory, player_id).trail);
                assert(player@ == was.stepped(before.territory, player_id));
                assert(result@.trail_to_claim =~= was.step_report(
                    before.territory,
                    player_id,
                ).trail_to_claim);
            }
        },
        None => {},
    }
    result
}

/// Moves every living player that has a heading, by ascending id, and
/// returns the reports that call for something, each with its player.
pub fn update_movement(state: &mut GameState, config: &PaperioConfig) -> (results: Vec<
    (PlayerId, MoveResult),
>)
    ensures
        final(state)@ == old(state)@.moved(),
        results@.len() == old(state)@.move_reports().len(),
        forall|k: int|
            0 <= k < results@.len() ==> (#[trigger] results@[k]).0 == old(state)@.move_reports()[k].0
                && results@[k].1@ == old(state)@.move_reports()[k].1,
{
    let ghost before = state@;
    let ids = state.get_player_ids();
    let mut results: Vec<(PlayerId, MoveResult)> = Vec::new();
    proof {
        lemma_ascending_ids(before.players.dom());
    }
    let mut i: usize = 0;
    while i < ids.len()
        invariant
            i <= ids@.len(),
            ids@ == before.ids(),
            ids@.no_duplicates(),
            forall|id: PlayerId| ids@.contains(id) <==> before.players.contains_key(id),
            state@.territory == before.territory,
            state@.players.dom() == before.players.dom(),
            forall|k: int|
                0 <= k < ids@.len() ==> state@.players[#[trigger] ids@[k]] == (if k < i
                    && before.players[ids@[k]].is_moving() {
                    before.players[ids@[k]].stepped(before.territory, ids@[k])
                } else {
                    before.players[ids@[k]]
                }),
            results@.len() == before.move_reports_of(ids@.take(i as int)).len(),
            forall|k: int|
                0 <= k < results@.len() ==> (#[trigger] results@[k]).0 == before.move_reports_of(
                    ids@.take(i as int),
                )[k].0 && results@[k].1@ == before.move_reports_of(ids@.take(i as int))[k].1,
        decreases ids@.len() - i,
    {
        let id = ids[i];
        let ghost now = state@;
        proof {
            assert(ids@.take(i + 1).drop_last() =~= ids@.take(i as int));
            assert(ids@.contains(ids@[i as int]));
            assert(now.players[ids@[i as int]] == before.players[id]);
        }
        let moving = match state.get_player(id) {
            Some(player) => player.alive && player.direction != Direction::Still,
            None => false,
        };
        if moving {
            let result = move_player(state, id, config);
            if result.should_claim || result.hit_boundary {
                results.push((id, result));
            }
        }
        proof {
            assert(state@.players.dom() =~= before.players.dom());
            assert forall|k: int| 0 <= k < ids@.len() implies state@.players[#[trigger] ids@[k]]
                == (if k < i + 1 && before.players[ids@[k]].is_moving() {
                before.players[ids@[k]].stepped(before.territory, ids@[k])
            } else {
                before.players[ids@[k]]
            }) by {
                if k != i {
                    assert(ids@[k] != ids@[i as int]);
                    assert(now.players[ids@[k]] == (if k < i && before.players[ids@[k]].is_moving() {
                        before.players[ids@[k]].stepped(before.territory, ids@[k])
                    } else {
                        before.players[ids@[k]]
                    }));
                }
            }
        }
        i += 1;
    }
    proof {
        assert(ids@.take(i as int) =~= ids@);
        assert forall|id: PlayerId| state@.players.contains_key(id) implies state@.players[id]
            == before.moved().players[id] by {
            assert(ids@.contains(id));
            let k = choose|k: int| 0 <= k < ids@.len() && ids@[k] == id;
            assert(state@.players[ids@[k]] == before.moved().players[id]);
        }
        assert(state@.players =~= before.moved().players);
    }
    results
}

} // verus!
