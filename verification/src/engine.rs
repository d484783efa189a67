use vstd::prelude::*;
use std::time::Duration;
use crate::claim::claim_territory;
use crate::claim::contains_id;
use crate::claim::lemma_assign_cells;
use crate::collision::check_collisions;
use crate::collision::Elimination;
use crate::collision::EliminationReason;
use crate::config::duration_of_millis;
use crate::config::get_player_color;
use crate::config::spec_player_color;
use crate::config::PaperioConfig;
use crate::game::Game;
use crate::game::GameError;
use crate::game::PlayerId;
use crate::game::TickResult;
use crate::grid::Direction;
use crate::grid::GridPos;
use crate::movement::direction_from_proto;
use crate::movement::set_player_direction;
use crate::movement::spec_direction_from_proto;
use crate::movement::update_movement;
use crate::movement::MoveReport;
use crate::player::Player;
use crate::player::PlayerView;
use crate::scoring::update_scores;
use crate::spawn::eliminate_player;
use crate::spawn::find_spawn_position;
use crate::spawn::grant_starting_territory;
use crate::spawn::lemma_spawn_choice_unique;
use crate::spawn::respawn_player;
use crate::state::players_view;
use crate::state::GameState;
use crate::state::StateView;
use crate::territory::lemma_index_roundtrip;
use crate::territory::lemma_owned_cells_members;
use crate::territory::lemma_pos_roundtrip;
use crate::territory::GridView;
use crate::timers::update_timers;
use crate::wire::decode_failure_text;
use crate::wire::decode_input;
use crate::wire::input_code;

verus! {

/// What one tick makes of a state.
pub struct TickOutcome {
    /// The state after the tick.
    pub state: StateView,
    /// The players eliminated during the tick, in the order it happened.
    pub eliminated: Seq<PlayerId>,
    /// The players that re-entered the world during the tick.
    pub respawns: Seq<PlayerId>,
}

/// Of the moves `reports`, the players that ran into the edge of the grid.
pub open spec fn boundary_victims(reports: Seq<(PlayerId, MoveReport)>) -> Seq<PlayerId>
    decreases reports.len(),
{
    if reports.len() == 0 {
        Seq::empty()
    } else if reports.last().1.hit_boundary {
        boundary_victims(reports.drop_last()).push(reports.last().0)
    } else {
        boundary_victims(reports.drop_last())
    }
}

impl GridView {
    /// The grid after `player_id` gives up every cell it owns.
    pub open spec fn released(self, player_id: PlayerId) -> GridView {
        GridView {
            cells: Seq::new(
                self.cells.len(),
                |i: int|
                    if self.cells[i] == Some(player_id) {
                        None
                    } else {
                        self.cells[i]
                    },
            ),
            ..self
        }
    }
}

impl StateView {
    /// The state after the players `ids` have re-entered the world one
    /// after the other.
    pub open spec fn respawn_all(self, ids: Seq<PlayerId>, config: PaperioConfig) -> StateView
        decreases ids.len(),
    {
        if ids.len() == 0 {
            self
        } else {
            self.respawn_all(ids.drop_last(), config).respawn(ids.last(), config)
        }
    }

    /// The state after the report of one move is acted on: a player at the
    /// edge is eliminated, a completed trail is claimed.
    pub open spec fn settle_move(self, id: PlayerId, report: MoveReport, config: PaperioConfig) -> StateView {
        if report.hit_boundary {
            self.eliminate(id, config.respawn_delay_ticks)
        } else if report.should_claim {
            StateView { territory: self.territory.claimed_by(id, report.trail_to_claim), ..self }
        } else {
            self
        }
    }

    /// The state after the reports of a tick's moves are acted on in turn.
    pub open spec fn settle_moves(
        self,
        reports: Seq<(PlayerId, MoveReport)>,
        config: PaperioConfig,
    ) -> StateView
        decreases reports.len(),
    {
        if reports.len() == 0 {
            self
        } else {
            self.settle_moves(reports.drop_last(), config).settle_move(
                reports.last().0,
                reports.last().1,
                config,
            )
        }
    }

    /// The state after the victims of `eliminations` are taken out in turn,
    /// with the list of everybody eliminated so far. `gone` lists the
    /// players eliminated before; nobody is eliminated twice.
    pub open spec fn strike(
        self,
        eliminations: Seq<Elimination>,
        gone: Seq<PlayerId>,
        config: PaperioConfig,
    ) -> (StateView, Seq<PlayerId>)
        decreases eliminations.len(),
    {
        if eliminations.len() == 0 {
            (self, gone)
        } else {
            let (state, out) = self.strike(eliminations.drop_last(), gone, config);
            let victim = eliminations.last().victim;
            if out.contains(victim) {
                (state, out)
            } else {
                (state.eliminate(victim, config.respawn_delay_ticks), out.push(victim))
            }
        }
    }

    /// One tick: timers run; players whose countdown ends re-enter the
    /// world; everybody with a heading moves; players at the edge are
    /// eliminated and completed trails claimed; collisions are found on the
    /// result and their victims eliminated; scores are brought up to date.
    pub open spec fn ticked(self, config: PaperioConfig) -> TickOutcome {
        let ready = self.due_ids();
        let respawned = self.timers_advanced().respawn_all(ready, config);
        let reports = respawned.move_reports();
        let settled = respawned.moved().settle_moves(reports, config);
        let struck = settled.strike(settled.collisions(), boundary_victims(reports), config);
        TickOutcome { state: struck.0.scored(), eliminated: struck.1, respawns: ready }
    }

    /// The state after a player joins at `pos`: it stands there alive,
    /// still and invulnerable, in the colour of its id; the starting block
    /// around `pos` is its territory; scores are up to date. A player that
    /// had the id before is replaced.
    pub open spec fn joined_at(
        self,
        id: PlayerId,
        name: Seq<char>,
        pos: GridPos,
        config: PaperioConfig,
    ) -> StateView {
        StateView {
            players: self.players.insert(
                id,
                PlayerView {
                    invulnerability_timer: config.invulnerability_ticks,
                    ..PlayerView::fresh(id, name, pos, spec_player_color(id))
                },
            ),
            territory: self.territory.granted(id, pos, config.starting_territory_size),
        }.scored()
    }

    /// The state after a player joins where the spawn search puts it.
    pub open spec fn joined(self, id: PlayerId, name: Seq<char>, config: PaperioConfig) -> StateView {
        self.joined_at(id, name, self.spawn_choice(config), config)
    }

    /// The state after a player leaves: it is gone, and what it owned is
    /// nobody's. An unknown id changes nothing.
    pub open spec fn left(self, id: PlayerId) -> StateView {
        if self.players.contains_key(id) {
            StateView { players: self.players.remove(id), territory: self.territory.released(id) }
        } else {
            self
        }
    }
}

/// The mathematical content of a [`PaperioGame`].
pub struct EngineView {
    pub state: StateView,
    pub config: PaperioConfig,
    pub tick: u32,
}

impl EngineView {
    /// A new game under `config`: no players, nothing owned, tick zero.
    pub open spec fn initial(config: PaperioConfig) -> EngineView {
        EngineView {
            state: StateView {
                players: Map::empty(),
                territory: GridView::unowned(config.grid_width as nat, config.grid_height as nat),
            },
            config,
            tick: 0,
        }
    }
}

/// The territory game: players by id, the ownership grid, the settings, and
/// the number of ticks taken.
pub struct PaperioGame {
    state: GameState,
    config: PaperioConfig,
    tick: u32,
}

impl View for PaperioGame {
    type V = EngineView;

    closed spec fn view(&self) -> EngineView {
        EngineView { state: self.state@, config: self.config, tick: self.tick }
    }
}

impl PaperioGame {
    /// A game with the stock settings.
    pub fn new() -> (game: Self)
        ensures
            game@ == EngineView::initial(PaperioConfig::spec_default()),
    {
        Self::with_config(PaperioConfig::default())
    }

    /// A game with the given settings. The grid's cell count has to fit the
    /// machine's index type.
    pub fn with_config(config: PaperioConfig) -> (game: Self)
        requires
            config.grid_width * config.grid_height <= usize::MAX,
        ensures
            game@ == EngineView::initial(config),
    {
        Self { state: GameState::new(config.grid_width, config.grid_height), config, tick: 0 }
    }

    pub fn current_tick(&self) -> (tick: u32)
        ensures
            tick == self@.tick,
    {
        self.tick
    }

    pub fn state(&self) -> (state: &GameState)
        ensures
            state@ == self@.state,
    {
        &self.state
    }

    pub fn state_mut(&mut self) -> (state: &mut GameState)
        ensures
            state@ == old(self)@.state,
            final(self)@ == (EngineView { state: final(state)@, ..old(self)@ }),
    {
        &mut self.state
    }

    pub fn config(&self) -> (config: &PaperioConfig)
        ensures
            *config == self@.config,
    {
        &self.config
    }
}

/// Whether `after` and `result` are what a game in state `before` makes
/// of the direction code `code` sent by `id`: the heading is set, or the
/// input is refused with its reason and nothing changes.
pub open spec fn input_applied(
    before: EngineView,
    id: PlayerId,
    code: i32,
    after: EngineView,
    result: Result<(), GameError>,
) -> bool {
    let direction = spec_direction_from_proto(code);
    match result {
        Ok(_) => {
            &&& before.state.turn_refusal(id, direction).is_none()
            &&& after == (EngineView { state: before.state.turned(id, direction), ..before })
        },
        Err(error) => {
            &&& after == before
            &&& match error {
                GameError::InvalidInput(reason) => before.state.turn_refusal(id, direction)
                    == Some(reason@),
                _ => false,
            }
        },
    }
}

impl PaperioGame {
    /// Applies a decoded input: the player `player_id` asks for the
    /// direction that `code` stands for.
    pub fn apply_input(&mut self, player_id: PlayerId, code: i32) -> (result: Result<
        (),
        GameError,
    >)
        ensures
            input_applied(old(self)@, player_id, code, final(self)@, result),
    {
        let direction = direction_from_proto(code);
        match set_player_direction(&mut self.state, player_id, direction) {
            Ok(_) => Ok(()),
            Err(reason) => Err(GameError::InvalidInput(reason.to_owned())),
        }
    }
}

impl Default for PaperioGame {
    fn default() -> (game: Self)
        ensures
            game@ == EngineView::initial(PaperioConfig::spec_default()),
    {
        Self::new()
    }
}

/// Giving up the cells that a player owns, one by one, releases them all.
proof fn lemma_release_owned(g: GridView, player_id: PlayerId)
    requires
        g.wf(),
    ensures
        g.assign(None, g.owned_cells(player_id)) == g.released(player_id),
{
    let cells = g.owned_cells(player_id);
    let cleared = g.assign(None, cells);
    lemma_assign_cells(g, None, cells);
    lemma_owned_cells_members(g, player_id, g.cells.len() as int);
    assert forall|i: int| 0 <= i < g.cells.len() implies cleared.cells[i] == g.released(
        player_id,
    ).cells[i] by {
        let hit = exists|k: int|
            0 <= k < cells.len() && g.in_bounds(#[trigger] cells[k]) && g.index_of(cells[k]) == i;
        if g.cells[i] == Some(player_id) {
            assert(g.cells[i].is_some());
            lemma_pos_roundtrip(g, i);
            assert(cells.contains(g.pos_at(i)));
            let k = choose|k: int| 0 <= k < cells.len() && cells[k] == g.pos_at(i);
            assert(g.in_bounds(cells[k]) && g.index_of(cells[k]) == i);
        }
        if hit {
            let k = choose|k: int|
                0 <= k < cells.len() && g.in_bounds(#[trigger] cells[k]) && g.index_of(cells[k])
                    == i;
            assert(cells.contains(cells[k]));
            let j = choose|j: int|
                0 <= j < g.cells.len() && #[trigger] g.cells[j] == Some(player_id) && g.pos_at(j)
                    == cells[k];
            assert(g.cells[j].is_some());
            lemma_pos_roundtrip(g, j);
        }
    }
    assert(cleared.cells =~= g.released(player_id).cells);
}

impl Game for PaperioGame {
    /// The tick counter has room for one more.
    open spec fn can_tick(&self) -> bool {
        self@.tick < u32::MAX
    }

    /// The tick rate is not zero.
    open spec fn has_tick_rate(&self) -> bool {
        self@.config.tick_rate_hz > 0
    }

    /// The snapshot format is not fixed yet: the snapshot is empty.
    open spec fn snapshot(&self) -> Seq<u8> {
        Seq::empty()
    }

    /// Every player sees the full snapshot.
    open spec fn narrows_snapshot(&self) -> bool {
        false
    }

    /// The territory game goes on for as long as it is ticked.
    open spec fn can_end(&self) -> bool {
        false
    }

    fn tick(&mut self) -> (result: TickResult)
        ensures
            final(self)@ == (EngineView {
                state: old(self)@.state.ticked(old(self)@.config).state,
                tick: (old(self)@.tick + 1) as u32,
                ..old(self)@
            }),
            result.eliminated@ == old(self)@.state.ticked(old(self)@.config).eliminated,
            result.respawns@ == old(self)@.state.ticked(old(self)@.config).respawns,
            result.broadcast.is_none(),
            result.player_updates@.len() == 0,
    {
        let ghost start = self.state@;
        let ghost cfg = self.config;
        self.tick += 1;
        let mut result = TickResult::default();

        let ready = update_timers(&mut self.state);
        let ghost timed = self.state@;
        let mut i: usize = 0;
        proof {
            assert(result.respawns@ =~= ready@.take(0));
        }
        while i < ready.len()
            invariant
                i <= ready@.len(),
                cfg == self.config,
                self.tick == old(self).tick + 1,
                self.state@ == timed.respawn_all(ready@.take(i as int), cfg),
                result.respawns@ == ready@.take(i as int),
                result.eliminated@ == Seq::<PlayerId>::empty(),
                result.broadcast.is_none(),
                result.player_updates@.len() == 0,
            decreases ready@.len() - i,
        {
            proof {
                assert(ready@.take(i + 1).drop_last() =~= ready@.take(i as int));
            }
            match respawn_player(&mut self.state, ready[i], &self.config) {
                Some(_) => {
                    result.respawns.push(ready[i]);
                },
                None => {},
            }
            proof {
                assert(result.respawns@ =~= ready@.take(i + 1));
            }
            i += 1;
        }
        proof {
            assert(ready@.take(i as int) =~= ready@);
        }
        let ghost respawned = self.state@;
        let ghost reports = respawned.move_reports();

        let move_results = update_movement(&mut self.state, &self.config);
        let ghost moved = self.state@;
        let mut k: usize = 0;
        proof {
            assert(reports.take(0) =~= Seq::<(PlayerId, MoveReport)>::empty());
        }
        while k < move_results.len()
            invariant
                k <= move_results@.len(),
                cfg == self.config,
                self.tick == old(self).tick + 1,
                move_results@.len() == reports.len(),
                forall|j: int|
                    0 <= j < move_results@.len() ==> (#[trigger] move_results@[j]).0 == reports[j].0
                        && move_results@[j].1@ == reports[j].1,
                self.state@ == moved.settle_moves(reports.take(k as int), cfg),
                result.eliminated@ == boundary_victims(reports.take(k as int)),
                result.respawns@ == ready@,
                result.broadcast.is_none(),
                result.player_updates@.len() == 0,
            decreases move_results@.len() - k,
        {
            proof {
                assert(reports.take(k + 1).drop_last() =~= reports.take(k as int));
                assert(move_results@[k as int].1@ == reports[k as int].1);
            }
            let player_id = move_results[k].0;
            if move_results[k].1.hit_boundary {
                eliminate_player(
                    &mut self.state,
                    player_id,
                    EliminationReason::Boundary,
                    self.config.respawn_delay_ticks,
                );
                result.eliminated.push(player_id);
            } else if move_results[k].1.should_claim {
                let _claimed = claim_territory(
                    &mut self.state.territory,
                    player_id,
                    move_results[k].1.trail_to_claim.as_slice(),
                );
            }
            k += 1;
        }
        proof {
            assert(reports.take(k as int) =~= reports);
        }
        let ghost settled = self.state@;
        let ghost at_edge = result.eliminated@;

        let eliminations = check_collisions(&self.state);
        let mut j: usize = 0;
        proof {
            assert(eliminations@.take(0) =~= Seq::<Elimination>::empty());
        }
        while j < eliminations.len()
            invariant
                j <= eliminations@.len(),
                cfg == self.config,
                self.tick == old(self).tick + 1,
                (self.state@, result.eliminated@) == settled.strike(
                    eliminations@.take(j as int),
                    at_edge,
                    cfg,
                ),
                result.respawns@ == ready@,
                result.broadcast.is_none(),
                result.player_updates@.len() == 0,
            decreases eliminations@.len() - j,
        {
            proof {
                assert(eliminations@.take(j + 1).drop_last() =~= eliminations@.take(j as int));
            }
            let victim = eliminations[j].victim;
            if !contains_id(&result.eliminated, victim) {
                eliminate_player(
                    &mut self.state,
                    victim,
                    eliminations[j].reason,
                    self.config.respawn_delay_ticks,
                );
                result.eliminated.push(victim);
            }
            j += 1;
        }
        proof {
            assert(eliminations@.take(j as int) =~= eliminations@);
        }
        update_scores(&mut self.state);
        result
    }

    fn handle_input(&mut self, player_id: PlayerId, input: &[u8]) -> (result: Result<(), GameError>)
        ensures
            match input_code(input@) {
                Some(code) => input_applied(old(self)@, player_id, code, final(self)@, result),
                None => final(self)@ == old(self)@ && (result matches Err(
                    GameError::InvalidInput(_),
                )),
            },
    {
        match decode_input(input) {
            Ok(code) => self.apply_input(player_id, code),
            Err(error) => Err(GameError::InvalidInput(decode_failure_text(&error))),
        }
    }

    fn player_joined(&mut self, player_id: PlayerId, name: String) -> (result: Result<
        Vec<u8>,
        GameError,
    >)
        ensures
            final(self)@ == (EngineView {
                state: old(self)@.state.joined(player_id, name@, old(self)@.config),
                ..old(self)@
            }),
            match result {
                Ok(payload) => payload@.len() == 0,
                Err(_) => false,
            },
    {
        broadcast use vstd::std_specs::hash::group_hash_axioms;

        let ghost before = self.state@;
        let spawn_pos = match find_spawn_position(&self.state, &self.config) {
            Some(pos) => pos,
            None => {
                return Err(GameError::InvalidState("No valid spawn position".to_owned()));
            },
        };
        proof {
            lemma_spawn_choice_unique(before, self.config, spawn_pos, spawn_pos);
        }
        let color = get_player_color(player_id);
        let mut player = Player::new(player_id, name, spawn_pos, color);
        player.invulnerability_timer = self.config.invulnerability_ticks;
        let ghost entered = player@;
        self.state.players.insert(player_id, player);
        proof {
            assert(self.state@.players =~= before.players.insert(player_id, entered));
        }
        grant_starting_territory(
            &mut self.state.territory,
            player_id,
            &spawn_pos,
            self.config.starting_territory_size,
        );
        update_scores(&mut self.state);
        Ok(Vec::new())
    }

    fn player_left(&mut self, player_id: PlayerId)
        ensures
            final(self)@ == (EngineView { state: old(self)@.state.left(player_id), ..old(self)@ }),
    {
        broadcast use vstd::std_specs::hash::group_hash_axioms;

        let ghost before = self.state@;
        match self.state.players.remove(&player_id) {
            Some(_) => {
                proof {
                    assert(self.state@.players =~= before.players.remove(player_id));
                }
                let owned = self.state.territory.get_owned_cells(player_id);
                let total = self.state.territory.get_total_cells();
                let mut i: usize = 0;
                while i < owned.len()
                    invariant
                        i <= owned@.len(),
                        before.territory.wf(),
                        owned@ == before.territory.owned_cells(player_id),
                        self.state@.players == before.players.remove(player_id),
                        self.state@.territory == before.territory.assign(
                            None,
                            owned@.take(i as int),
                        ),
                        self.config == old(self).config,
                        self.tick == old(self).tick,
                    decreases owned@.len() - i,
                {
                    proof {
                        assert(owned@.take(i + 1).drop_last() =~= owned@.take(i as int));
                        lemma_assign_cells(before.territory, None, owned@.take(i as int));
                    }
                    self.state.territory.set_cell_owner(&owned[i], None);
                    i += 1;
                }
                proof {
                    assert(owned@.take(i as int) =~= owned@);
                    lemma_release_owned(before.territory, player_id);
                }
            },
            None => {
                proof {
                    assert(self.state@.players =~= before.players);
                }
            },
        }
    }

    /// The snapshot format is not fixed yet: the snapshot is empty.
    fn encode_state(&self) -> (bytes: Vec<u8>)
        ensures
            bytes@.len() == 0,
    {
        Vec::new()
    }

    fn encode_state_for_player(&self, player_id: PlayerId) -> (bytes: Vec<u8>)
        ensures
            bytes@.len() == 0,
    {
        self.encode_state()
    }

    fn tick_rate(&self) -> (rate: Duration)
        ensures
            rate == duration_of_millis(self@.config.spec_tick_millis() as u64),
    {
        self.config.tick_duration()
    }
}

} // verus!
