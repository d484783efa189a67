use vstd::prelude::*;
use crate::claim::lemma_assign_cells;
use crate::collision::Elimination;
use crate::config::PaperioConfig;
use crate::engine::boundary_victims;
use crate::game::PlayerId;
use crate::grid::Direction;
use crate::grid::GridPos;
use crate::laws::lemma_move_reports;
use crate::laws::lemma_respawn_all_shape;
use crate::movement::MoveReport;
use crate::spawn::beyond_reach;
use crate::spawn::lemma_nearest_bounds;
use crate::spawn::ring;
use crate::spawn::scans_before;
use crate::state::StateView;
use crate::territory::lemma_index_roundtrip;
use crate::territory::GridView;

verus! {

impl StateView {
    /// What holds of the players of a game in play: a living player stands
    /// on the grid; a dead one has neither trail nor heading; and a player
    /// with a trail stands outside its own territory.
    pub open spec fn orderly(self) -> bool {
        forall|id: PlayerId|
            #![trigger self.players[id]]
            self.players.contains_key(id) ==> {
                let p = self.players[id];
                &&& p.alive ==> self.territory.in_bounds(p.position)
                &&& !p.alive ==> p.trail.len() == 0 && p.direction == Direction::Still
                &&& p.trail.len() > 0 ==> !self.territory.is_owned_by(p.position, id)
            }
    }
}

impl StateView {
    /// The first two of the things that hold of the players of a game in
    /// play: a living player stands on the grid, and a dead one has neither
    /// trail nor heading.
    pub open spec fn placed(self) -> bool {
        forall|id: PlayerId|
            #![trigger self.players[id]]
            self.players.contains_key(id) ==> {
                let p = self.players[id];
                &&& p.alive ==> self.territory.in_bounds(p.position)
                &&& !p.alive ==> p.trail.len() == 0 && p.direction == Direction::Still
            }
    }
}

/// Among the good spawns there is a first in search order.
proof fn lemma_first_spawn(s: StateView, config: PaperioConfig, c: GridPos) -> (first: GridPos)
    requires
        s.spawn_ok(config, c),
    ensures
        s.spawn_ok(config, first),
        forall|other: GridPos| #[trigger]
            s.spawn_ok(config, other) ==> !scans_before(s.center(), other, first),
    decreases ring(s.center(), c), c.x - i32::MIN, c.y - i32::MIN,
{
    if exists|other: GridPos| s.spawn_ok(config, other) && scans_before(s.center(), other, c) {
        let other = choose|other: GridPos|
            s.spawn_ok(config, other) && scans_before(s.center(), other, c);
        lemma_first_spawn(s, config, other)
    } else {
        c
    }
}

/// Among the candidates there is one farthest from every living player.
proof fn lemma_farthest_candidate(s: StateView, config: PaperioConfig, c: GridPos) -> (far:
    GridPos)
    requires
        s.is_candidate(config, c),
    ensures
        s.is_candidate(config, far),
        s.nearest(far) >= s.nearest(c),
        forall|other: GridPos| #[trigger]
            s.is_candidate(config, other) ==> s.nearest(other) <= s.nearest(far),
    decreases beyond_reach() - s.nearest(c),
{
    lemma_nearest_bounds(s, s.alive_ids(), c);
    if exists|other: GridPos| s.is_candidate(config, other) && s.nearest(other) > s.nearest(c) {
        let other = choose|other: GridPos|
            s.is_candidate(config, other) && s.nearest(other) > s.nearest(c);
        lemma_nearest_bounds(s, s.alive_ids(), other);
        lemma_farthest_candidate(s, config, other)
    } else {
        c
    }
}

/// Among the candidates at distance `d` from the nearest living player
/// there is a first in search order.
proof fn lemma_first_at_distance(s: StateView, config: PaperioConfig, c: GridPos) -> (first:
    GridPos)
    requires
        s.is_candidate(config, c),
    ensures
        s.is_candidate(config, first),
        s.nearest(first) == s.nearest(c),
        forall|other: GridPos| #[trigger]
            s.is_candidate(config, other) && s.nearest(other) == s.nearest(c) ==> !scans_before(
                s.center(),
                other,
                first,
            ),
    decreases ring(s.center(), c), c.x - i32::MIN, c.y - i32::MIN,
{
    if exists|other: GridPos|
        s.is_candidate(config, other) && s.nearest(other) == s.nearest(c) && scans_before(
            s.center(),
            other,
            c,
        ) {
        let other = choose|other: GridPos|
            s.is_candidate(config, other) && s.nearest(other) == s.nearest(c) && scans_before(
                s.center(),
                other,
                c,
            );
        lemma_first_at_distance(s, config, other)
    } else {
        c
    }
}

/// There is always a place to spawn, and on a grid with cells it lies on
/// the grid.
pub proof fn law_spawn_choice_exists(s: StateView, config: PaperioConfig)
    ensures
        s.is_spawn_choice(config, s.spawn_choice(config)),
        s.territory.wf() && s.territory.width > 0 && s.territory.height > 0
            ==> s.territory.in_bounds(s.spawn_choice(config)),
{
    let found = if s.alive_ids().len() == 0 {
        s.center()
    } else if exists|c: GridPos| s.spawn_ok(config, c) {
        let c = choose|c: GridPos| s.spawn_ok(config, c);
        lemma_first_spawn(s, config, c)
    } else if exists|c: GridPos| #[trigger] s.is_candidate(config, c) && s.nearest(c) > 0 {
        let c = choose|c: GridPos| #[trigger] s.is_candidate(config, c) && s.nearest(c) > 0;
        let far = lemma_farthest_candidate(s, config, c);
        lemma_first_at_distance(s, config, far)
    } else {
        s.center()
    };
    assert(s.is_spawn_choice(config, found));
}

/// The distance to the nearest of some players is the least of their
/// distances.
pub proof fn lemma_nearest_is_least(s: StateView, ids: Seq<PlayerId>, pos: GridPos)
    ensures
        forall|k: int|
            0 <= k < ids.len() ==> s.nearest_among(ids, pos) <= pos.spec_distance(
                s.players[#[trigger] ids[k]].position,
            ),
        ids.len() > 0 ==> exists|k: int|
            0 <= k < ids.len() && s.nearest_among(ids, pos) == pos.spec_distance(
                s.players[#[trigger] ids[k]].position,
            ),
    decreases ids.len(),
{
    if ids.len() > 0 {
        let front = ids.drop_last();
        lemma_nearest_is_least(s, front, pos);
        lemma_nearest_bounds(s, front, pos);
        let last = pos.spec_distance(s.players[ids.last()].position);
        assert forall|k: int| 0 <= k < ids.len() implies s.nearest_among(ids, pos)
            <= pos.spec_distance(s.players[#[trigger] ids[k]].position) by {
            if k < front.len() {
                assert(front[k] == ids[k]);
            }
        }
        if last < s.nearest_among(front, pos) || front.len() == 0 {
            assert(ids[ids.len() - 1] == ids.last());
            assert(s.nearest_among(ids, pos) == pos.spec_distance(
                s.players[ids[ids.len() - 1]].position,
            ));
        } else {
            let k = choose|k: int|
                0 <= k < front.len() && s.nearest_among(front, pos) == pos.spec_distance(
                    s.players[#[trigger] front[k]].position,
                );
            assert(ids[k] == front[k]);
            assert(s.nearest_among(ids, pos) == pos.spec_distance(
                s.players[ids[k]].position,
            ));
        }
    }
}

/// Whether `pos` keeps the least distance of the settings from every
/// living player.
pub open spec fn keeps_distance(s: StateView, config: PaperioConfig, pos: GridPos) -> bool {
    forall|id: PlayerId|
        s.is_alive(id) ==> pos.spec_distance(#[trigger] s.players[id].position)
            >= config.min_spawn_distance
}

/// A candidate is a good spawn exactly when it keeps its distance from
/// every living player and its block is clear.
pub proof fn lemma_spawn_ok(s: StateView, config: PaperioConfig, pos: GridPos)
    ensures
        s.spawn_ok(config, pos) <==> {
            &&& s.is_candidate(config, pos)
            &&& keeps_distance(s, config, pos)
            &&& s.territory.spawn_area_clear(pos, config.starting_territory_size)
        },
{
    let alive = s.alive_ids();
    s.lemma_alive_ids();
    lemma_nearest_is_least(s, alive, pos);
    if keeps_distance(s, config, pos) {
        if alive.len() > 0 {
            let k = choose|k: int|
                0 <= k < alive.len() && s.nearest_among(alive, pos) == pos.spec_distance(
                    s.players[#[trigger] alive[k]].position,
                );
            assert(s.is_alive(alive[k]));
        }
    }
    if s.nearest(pos) >= config.min_spawn_distance {
        assert forall|id: PlayerId| s.is_alive(id) implies pos.spec_distance(
            #[trigger] s.players[id].position,
        ) >= config.min_spawn_distance by {
            assert(alive.contains(id));
            let k = choose|k: int| 0 <= k < alive.len() && alive[k] == id;
            assert(s.nearest_among(alive, pos) <= pos.spec_distance(s.players[alive[k]].position));
        }
    }
}

/// The first clear ring wins: where some candidate keeps its distance from
/// every living player and has a clear block, the place to spawn is such a
/// candidate, and none of them lies on a ring nearer to the center.
pub proof fn law_first_clear_ring_wins(
    s: StateView,
    config: PaperioConfig,
    pos: GridPos,
    other: GridPos,
)
    requires
        s.alive_ids().len() > 0,
        s.is_spawn_choice(config, pos),
        s.is_candidate(config, other),
        keeps_distance(s, config, other),
        s.territory.spawn_area_clear(other, config.starting_territory_size),
    ensures
        s.is_candidate(config, pos),
        keeps_distance(s, config, pos),
        s.territory.spawn_area_clear(pos, config.starting_territory_size),
        ring(s.center(), pos) <= ring(s.center(), other),
{
    lemma_spawn_ok(s, config, other);
    lemma_spawn_ok(s, config, pos);
    assert(s.spawn_ok(config, other));
}

/// A block of side three with two owned cells is clear, and with three it
/// is not.
pub proof fn law_quarter_of_nine(g: GridView, center: GridPos)
    ensures
        g.claimed_around(center, 1) == 2 ==> g.spawn_area_clear(center, 3),
        g.claimed_around(center, 1) == 3 ==> !g.spawn_area_clear(center, 3),
{
}

/// A grant gives cells to nobody but the player it is for.
pub proof fn lemma_grant_owner(
    g: GridView,
    player_id: PlayerId,
    center: GridPos,
    size: u32,
    pos: GridPos,
    other: PlayerId,
)
    requires
        g.wf(),
        other != player_id,
        g.granted(player_id, center, size).is_owned_by(pos, other),
    ensures
        g.is_owned_by(pos, other),
{
    lemma_index_roundtrip(g, pos);
}

/// A claim gives cells to nobody but the claimant.
pub proof fn lemma_claim_owner(
    g: GridView,
    player_id: PlayerId,
    trail: Seq<GridPos>,
    pos: GridPos,
    other: PlayerId,
)
    requires
        g.wf(),
        other != player_id,
        g.claimed_by(player_id, trail).is_owned_by(pos, other),
    ensures
        g.is_owned_by(pos, other),
{
    if trail.len() > 0 {
        lemma_assign_cells(g, Some(player_id), trail);
        lemma_index_roundtrip(g, pos);
        let marked = g.mark_trail(player_id, trail);
        let at = g.index_of(pos);
        assert(marked.cells[at] == Some(other));
    }
}

/// Respawns keep the players orderly.
proof fn lemma_respawn_all_orderly(s: StateView, ids: Seq<PlayerId>, config: PaperioConfig)
    requires
        s.territory.wf(),
        s.territory.width > 0,
        s.territory.height > 0,
        s.orderly(),
    ensures
        s.respawn_all(ids, config).orderly(),
    decreases ids.len(),
{
    if ids.len() > 0 {
        let before = s.respawn_all(ids.drop_last(), config);
        let id = ids.last();
        let pos = before.spawn_choice(config);
        let after = before.respawn(id, config);
        lemma_respawn_all_orderly(s, ids.drop_last(), config);
        lemma_respawn_all_shape(s, ids.drop_last(), config);
        law_spawn_choice_exists(before, config);
        assert forall|other: PlayerId|
            #![trigger after.players[other]]
            after.players.contains_key(other) implies ({
            let p = after.players[other];
            &&& p.alive ==> after.territory.in_bounds(p.position)
            &&& !p.alive ==> p.trail.len() == 0 && p.direction == Direction::Still
            &&& p.trail.len() > 0 ==> !after.territory.is_owned_by(p.position, other)
        }) by {
            if other != id {
                assert(after.players[other] == before.players[other]);
                if after.territory.is_owned_by(after.players[other].position, other) {
                    lemma_grant_owner(
                        before.territory,
                        id,
                        pos,
                        config.starting_territory_size,
                        after.players[other].position,
                        other,
                    );
                }
            }
        }
    }
}

/// Eliminations keep the players orderly.
proof fn lemma_strike_orderly(
    s: StateView,
    eliminations: Seq<Elimination>,
    gone: Seq<PlayerId>,
    config: PaperioConfig,
)
    requires
        s.orderly(),
    ensures
        s.strike(eliminations, gone, config).0.orderly(),
    decreases eliminations.len(),
{
    if eliminations.len() > 0 {
        lemma_strike_orderly(s, eliminations.drop_last(), gone, config);
        crate::laws::lemma_strike_shape(s, eliminations.drop_last(), gone, config);
    }
}

/// A tick keeps the players of a game orderly: on a grid with cells, the
/// living stay on the grid, the dead keep neither trail nor heading, and
/// whoever has a trail stands outside its own territory.
pub proof fn law_tick_keeps_order(s: StateView, config: PaperioConfig)
    requires
        s.territory.wf(),
        s.territory.width > 0,
        s.territory.height > 0,
        s.orderly(),
    ensures
        s.ticked(config).state.orderly(),
{
    let ready = s.due_ids();
    let timed = s.timers_advanced();
    let respawned = timed.respawn_all(ready, config);
    let reports = respawned.move_reports();
    let moved = respawned.moved();
    let settled = moved.settle_moves(reports, config);
    let gone = boundary_victims(reports);
    let struck = settled.strike(settled.collisions(), gone, config);
    assert(timed.orderly()) by {
        assert forall|id: PlayerId|
            #![trigger timed.players[id]]
            timed.players.contains_key(id) implies timed.players[id] == s.players[id].ticked() by {}
    }
    lemma_respawn_all_orderly(timed, ready, config);
    lemma_respawn_all_shape(timed, ready, config);
    lemma_move_reports(respawned, respawned.ids());
    assert(moved.orderly()) by {
        assert forall|id: PlayerId|
            #![trigger moved.players[id]]
            moved.players.contains_key(id) implies ({
            let p = moved.players[id];
            &&& p.alive ==> moved.territory.in_bounds(p.position)
            &&& !p.alive ==> p.trail.len() == 0 && p.direction == Direction::Still
            &&& p.trail.len() > 0 ==> !moved.territory.is_owned_by(p.position, id)
        }) by {
            let was = respawned.players[id];
            assert(respawned.players.contains_key(id));
        }
    }
    assert forall|k: int|
        0 <= k < reports.len() && moved.players.contains_key((#[trigger] reports[k]).0)
            && reports[k].1.should_claim implies moved.players[reports[k].0].trail.len() == 0 by {
        let id = reports[k].0;
        assert(respawned.is_moving(id));
        assert(reports[k].1 == respawned.step_report(id));
    }
    lemma_settle_claims_orderly(moved, reports, config);
    lemma_strike_orderly(settled, settled.collisions(), gone, config);
    let last = struck.0;
    assert(last.scored().orderly()) by {
        assert forall|id: PlayerId|
            #![trigger last.scored().players[id]]
            last.scored().players.contains_key(id) implies last.players.contains_key(id) by {}
    }
}

/// Acting on move reports keeps the players orderly, as long as whoever
/// reports a claim has no trail left.
proof fn lemma_settle_claims_orderly(
    s: StateView,
    reports: Seq<(PlayerId, MoveReport)>,
    config: PaperioConfig,
)
    requires
        s.territory.wf(),
        s.orderly(),
        forall|k: int|
            0 <= k < reports.len() && s.players.contains_key((#[trigger] reports[k]).0)
                && reports[k].1.should_claim ==> s.players[reports[k].0].trail.len() == 0,
    ensures
        s.settle_moves(reports, config).orderly(),
        s.settle_moves(reports, config).territory.wf(),
        s.settle_moves(reports, config).players.dom() == s.players.dom(),
        forall|id: PlayerId|
            #![trigger s.settle_moves(reports, config).players[id]]
            s.players.contains_key(id) ==> s.settle_moves(reports, config).players[id].trail.len()
                <= s.players[id].trail.len(),
    decreases reports.len(),
{
    if reports.len() > 0 {
        let front = reports.drop_last();
        let last = reports.last();
        let before = s.settle_moves(front, config);
        let after = s.settle_moves(reports, config);
        assert forall|k: int|
            0 <= k < front.len() && s.players.contains_key((#[trigger] front[k]).0)
                && front[k].1.should_claim implies s.players[front[k].0].trail.len() == 0 by {
            assert(front[k] == reports[k]);
        }
        lemma_settle_claims_orderly(s, front, config);
        crate::laws::lemma_claim_wf(before.territory, last.0, last.1.trail_to_claim);
        assert(after.players.dom() =~= s.players.dom());
        assert(reports[reports.len() - 1] == last);
        assert forall|id: PlayerId|
            #![trigger after.players[id]]
            after.players.contains_key(id) implies ({
            let p = after.players[id];
            &&& p.alive ==> after.territory.in_bounds(p.position)
            &&& !p.alive ==> p.trail.len() == 0 && p.direction == Direction::Still
            &&& p.trail.len() > 0 ==> !after.territory.is_owned_by(p.position, id)
            &&& p.trail.len() <= s.players[id].trail.len()
        }) by {
            let was = before.players[id];
            assert(s.players.contains_key(id));
            assert(was.trail.len() <= s.players[id].trail.len());
            if !last.1.hit_boundary && last.1.should_claim {
                assert(after.players[id] == was);
                if id != last.0 && after.territory.is_owned_by(was.position, id) {
                    lemma_claim_owner(
                        before.territory,
                        last.0,
                        last.1.trail_to_claim,
                        was.position,
                        id,
                    );
                }
            }
        }
    }
}

/// A player that joins on a grid with cells leaves the players orderly.
pub proof fn law_join_keeps_order(
    s: StateView,
    id: PlayerId,
    name: Seq<char>,
    config: PaperioConfig,
)
    requires
        s.territory.wf(),
        s.territory.width > 0,
        s.territory.height > 0,
        s.orderly(),
    ensures
        s.joined(id, name, config).orderly(),
        s.joined(id, name, config).players.contains_key(id),
        s.joined(id, name, config).players[id].alive,
        s.joined(id, name, config).players[id].invulnerability_timer
            == config.invulnerability_ticks,
{
    let pos = s.spawn_choice(config);
    let after = s.joined(id, name, config);
    law_spawn_choice_exists(s, config);
    assert forall|other: PlayerId|
        #![trigger after.players[other]]
        after.players.contains_key(other) implies ({
        let p = after.players[other];
        &&& p.alive ==> after.territory.in_bounds(p.position)
        &&& !p.alive ==> p.trail.len() == 0 && p.direction == Direction::Still
        &&& p.trail.len() > 0 ==> !after.territory.is_owned_by(p.position, other)
    }) by {
        if other != id {
            assert(s.players.contains_key(other));
            let was = s.players[other];
            if after.territory.is_owned_by(was.position, other) {
                lemma_grant_owner(
                    s.territory,
                    id,
                    pos,
                    config.starting_territory_size,
                    was.position,
                    other,
                );
            }
        }
    }
}

/// A player that leaves is gone, owns nothing any more, and leaves the
/// others orderly.
pub proof fn law_leave_keeps_order(s: StateView, id: PlayerId, pos: GridPos)
    requires
        s.territory.wf(),
        s.orderly(),
        s.players.contains_key(id),
    ensures
        s.left(id).orderly(),
        !s.left(id).players.contains_key(id),
        !s.left(id).territory.is_owned_by(pos, id),
        s.left(id).territory.count_owned_by(id) == 0,
{
    let after = s.left(id);
    assert forall|other: PlayerId|
        #![trigger after.players[other]]
        after.players.contains_key(other) implies ({
        let p = after.players[other];
        &&& p.alive ==> after.territory.in_bounds(p.position)
        &&& !p.alive ==> p.trail.len() == 0 && p.direction == Direction::Still
        &&& p.trail.len() > 0 ==> !after.territory.is_owned_by(p.position, other)
    }) by {
        assert(s.players.contains_key(other));
        let was = s.players[other];
        if s.territory.in_bounds(was.position) {
            lemma_index_roundtrip(s.territory, was.position);
        }
    }
    if s.territory.in_bounds(pos) {
        lemma_index_roundtrip(s.territory, pos);
    }
    lemma_none_owned(after.territory.cells, id);
}

/// Where no cell is a player's, the player owns none.
pub proof fn lemma_none_owned(cells: Seq<Option<PlayerId>>, player_id: PlayerId)
    requires
        forall|i: int| 0 <= i < cells.len() ==> #[trigger] cells[i] != Some(player_id),
    ensures
        crate::territory::count_owned(cells, player_id) == 0,
    decreases cells.len(),
{
    if cells.len() > 0 {
        assert(cells[cells.len() - 1] != Some(player_id));
        assert forall|i: int| 0 <= i < cells.drop_last().len() implies #[trigger] cells.drop_last()[i]
            != Some(player_id) by {
            assert(cells.drop_last()[i] == cells[i]);
        }
        lemma_none_owned(cells.drop_last(), player_id);
    }
}

/// An accepted turn leaves the players orderly.
pub proof fn law_turn_keeps_order(s: StateView, id: PlayerId, direction: Direction)
    requires
        s.orderly(),
        s.turn_refusal(id, direction).is_none(),
    ensures
        s.turned(id, direction).orderly(),
{
    let after = s.turned(id, direction);
    assert forall|other: PlayerId|
        #![trigger after.players[other]]
        after.players.contains_key(other) implies ({
        let p = after.players[other];
        &&& p.alive ==> after.territory.in_bounds(p.position)
        &&& !p.alive ==> p.trail.len() == 0 && p.direction == Direction::Still
        &&& p.trail.len() > 0 ==> !after.territory.is_owned_by(p.position, other)
    }) by {
        assert(s.players.contains_key(other));
        let was = s.players[other];
    }
}

/// Respawns keep the players placed.
proof fn lemma_respawn_all_placed(s: StateView, ids: Seq<PlayerId>, config: PaperioConfig)
    requires
        s.territory.wf(),
        s.territory.width > 0,
        s.territory.height > 0,
        s.placed(),
    ensures
        s.respawn_all(ids, config).placed(),
    decreases ids.len(),
{
    if ids.len() > 0 {
        let before = s.respawn_all(ids.drop_last(), config);
        let id = ids.last();
        let after = before.respawn(id, config);
        lemma_respawn_all_placed(s, ids.drop_last(), config);
        lemma_respawn_all_shape(s, ids.drop_last(), config);
        law_spawn_choice_exists(before, config);
        assert forall|other: PlayerId|
            #![trigger after.players[other]]
            after.players.contains_key(other) implies ({
            let p = after.players[other];
            &&& p.alive ==> after.territory.in_bounds(p.position)
            &&& !p.alive ==> p.trail.len() == 0 && p.direction == Direction::Still
        }) by {
            if other != id {
                assert(after.players[other] == before.players[other]);
            }
        }
    }
}

/// A tick keeps the players of a game placed: on a grid with cells, the
/// living stay on the grid and the dead keep neither trail nor heading,
/// whatever else holds of the state.
pub proof fn law_tick_keeps_placed(s: StateView, config: PaperioConfig)
    requires
        s.territory.wf(),
        s.territory.width > 0,
        s.territory.height > 0,
        s.placed(),
    ensures
        s.ticked(config).state.placed(),
{
    let ready = s.due_ids();
    let timed = s.timers_advanced();
    let respawned = timed.respawn_all(ready, config);
    let reports = respawned.move_reports();
    let moved = respawned.moved();
    let settled = moved.settle_moves(reports, config);
    let gone = boundary_victims(reports);
    let struck = settled.strike(settled.collisions(), gone, config);
    assert(timed.placed()) by {
        assert forall|id: PlayerId|
            #![trigger timed.players[id]]
            timed.players.contains_key(id) implies timed.players[id] == s.players[id].ticked() by {}
    }
    lemma_respawn_all_placed(timed, ready, config);
    lemma_respawn_all_shape(timed, ready, config);
    assert(moved.placed()) by {
        assert forall|id: PlayerId|
            #![trigger moved.players[id]]
            moved.players.contains_key(id) implies ({
            let p = moved.players[id];
            &&& p.alive ==> moved.territory.in_bounds(p.position)
            &&& !p.alive ==> p.trail.len() == 0 && p.direction == Direction::Still
        }) by {
            assert(respawned.players.contains_key(id));
            let was = respawned.players[id];
        }
    }
    crate::laws::lemma_settle_moves_shape(moved, reports, config);
    assert(settled.placed()) by {
        assert forall|id: PlayerId|
            #![trigger settled.players[id]]
            settled.players.contains_key(id) implies ({
            let p = settled.players[id];
            &&& p.alive ==> settled.territory.in_bounds(p.position)
            &&& !p.alive ==> p.trail.len() == 0 && p.direction == Direction::Still
        }) by {
            assert(moved.players.contains_key(id));
            let was = moved.players[id];
        }
    }
    crate::laws::lemma_strike_shape(settled, settled.collisions(), gone, config);
    let last = struck.0;
    assert(last.placed()) by {
        assert forall|id: PlayerId|
            #![trigger last.players[id]]
            last.players.contains_key(id) implies ({
            let p = last.players[id];
            &&& p.alive ==> last.territory.in_bounds(p.position)
            &&& !p.alive ==> p.trail.len() == 0 && p.direction == Direction::Still
        }) by {
            assert(settled.players.contains_key(id));
            let was = settled.players[id];
        }
    }
    assert(last.scored().placed()) by {
        assert forall|id: PlayerId|
            #![trigger last.scored().players[id]]
            last.scored().players.contains_key(id) implies last.players.contains_key(id) by {}
    }
}

} // verus!
