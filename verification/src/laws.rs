use vstd::prelude::*;
use crate::claim::count_gained;
use crate::claim::count_pairs;
use crate::claim::count_stolen;
use crate::claim::is_gain;
use crate::claim::is_theft;
use crate::claim::lemma_assign_cells;
use crate::claim::lemma_count_pairs_none;
use crate::collision::has_victim;
use crate::collision::Elimination;
use crate::collision_laws::lemma_victims_vulnerable;
use crate::config::PaperioConfig;
use crate::engine::boundary_victims;
use crate::flood::lemma_reach_step;
use crate::game::PlayerId;
use crate::grid::adjacent;
use crate::grid::Direction;
use crate::grid::GridPos;
use crate::movement::MoveReport;
use crate::roster::lemma_ascending_ids;
use crate::roster::lemma_filter_members;
use crate::state::StateView;
use crate::territory::count_owned;
use crate::territory::lemma_index_roundtrip;
use crate::territory::lemma_pos_roundtrip;
use crate::territory::GridView;

verus! {

/// A cell has one owner at most: two players that own the same cell are the
/// same player.
pub proof fn law_owner_unique(g: GridView, pos: GridPos, a: PlayerId, b: PlayerId)
    requires
        g.is_owned_by(pos, a),
        g.is_owned_by(pos, b),
    ensures
        a == b,
{
}

/// Handing one cell to an owner keeps a grid well formed.
pub proof fn lemma_with_owner_wf(g: GridView, pos: GridPos, owner: Option<PlayerId>)
    requires
        g.wf(),
    ensures
        g.with_owner(pos, owner).wf(),
        g.with_owner(pos, owner).width == g.width,
        g.with_owner(pos, owner).height == g.height,
{
    if g.in_bounds(pos) {
        lemma_index_roundtrip(g, pos);
        let after = g.with_owner(pos, owner);
        assert forall|i: int|
            0 <= i < after.cells.len() && (#[trigger] after.cells[i]).is_some() implies after.nameable(
            i,
        ) by {
            if i != g.index_of(pos) {
                assert(g.cells[i].is_some());
            }
        }
    }
}

/// Handing cells to an owner keeps a grid well formed.
pub proof fn lemma_assign_wf(g: GridView, owner: Option<PlayerId>, cells: Seq<GridPos>)
    requires
        g.wf(),
    ensures
        g.assign(owner, cells).wf(),
        g.assign(owner, cells).width == g.width,
        g.assign(owner, cells).height == g.height,
    decreases cells.len(),
{
    if cells.len() > 0 {
        lemma_assign_wf(g, owner, cells.drop_last());
        lemma_with_owner_wf(g.assign(owner, cells.drop_last()), cells.last(), owner);
    }
}

/// A claim keeps a grid well formed.
pub proof fn lemma_claim_wf(g: GridView, player_id: PlayerId, trail: Seq<GridPos>)
    requires
        g.wf(),
    ensures
        g.claimed_by(player_id, trail).wf(),
        g.claimed_by(player_id, trail).width == g.width,
        g.claimed_by(player_id, trail).height == g.height,
{
    if trail.len() > 0 {
        lemma_assign_wf(g, Some(player_id), trail);
        let marked = g.mark_trail(player_id, trail);
        let filled = marked.fill_enclosed(player_id);
        assert forall|i: int|
            0 <= i < filled.cells.len() && (#[trigger] filled.cells[i]).is_some() implies filled.nameable(
            i,
        ) by {
            if !marked.enclosed_at(i, player_id) {
                assert(marked.cells[i].is_some());
            }
        }
    }
}

/// A grant of starting territory keeps a grid well formed.
pub proof fn lemma_grant_wf(g: GridView, player_id: PlayerId, center: GridPos, size: u32)
    requires
        g.wf(),
    ensures
        g.granted(player_id, center, size).wf(),
        g.granted(player_id, center, size).width == g.width,
        g.granted(player_id, center, size).height == g.height,
{
    let after = g.granted(player_id, center, size);
    assert forall|i: int|
        0 <= i < after.cells.len() && (#[trigger] after.cells[i]).is_some() implies after.nameable(
        i,
    ) by {
        if !g.nameable(i) {
            assert(g.cells[i].is_some());
        }
    }
}

/// Respawns keep the grid well formed and every player in the game.
pub proof fn lemma_respawn_all_shape(s: StateView, ids: Seq<PlayerId>, config: PaperioConfig)
    requires
        s.territory.wf(),
    ensures
        s.respawn_all(ids, config).territory.wf(),
        s.respawn_all(ids, config).territory.width == s.territory.width,
        s.respawn_all(ids, config).territory.height == s.territory.height,
        s.respawn_all(ids, config).players.dom() == s.players.dom(),
    decreases ids.len(),
{
    if ids.len() > 0 {
        let before = s.respawn_all(ids.drop_last(), config);
        lemma_respawn_all_shape(s, ids.drop_last(), config);
        lemma_grant_wf(
            before.territory,
            ids.last(),
            before.spawn_choice(config),
            config.starting_territory_size,
        );
        assert(before.respawn(ids.last(), config).players.dom() =~= before.players.dom());
    }
}

/// Acting on move reports keeps the grid well formed and every player in
/// the game; nobody comes back to life.
pub proof fn lemma_settle_moves_shape(
    s: StateView,
    reports: Seq<(PlayerId, MoveReport)>,
    config: PaperioConfig,
)
    requires
        s.territory.wf(),
    ensures
        s.settle_moves(reports, config).territory.wf(),
        s.settle_moves(reports, config).territory.width == s.territory.width,
        s.settle_moves(reports, config).territory.height == s.territory.height,
        s.settle_moves(reports, config).players.dom() == s.players.dom(),
        forall|id: PlayerId|
            #![trigger s.settle_moves(reports, config).players[id]]
            s.players.contains_key(id) ==> {
                let after = s.settle_moves(reports, config).players[id];
                if exists|k: int|
                    0 <= k < reports.len() && (#[trigger] reports[k]).0 == id
                        && reports[k].1.hit_boundary {
                    after == s.players[id].eliminated(config.respawn_delay_ticks)
                } else {
                    after == s.players[id]
                }
            },
    decreases reports.len(),
{
    if reports.len() > 0 {
        let front = reports.drop_last();
        let last = reports.last();
        let before = s.settle_moves(front, config);
        let after = s.settle_moves(reports, config);
        lemma_settle_moves_shape(s, front, config);
        lemma_claim_wf(before.territory, last.0, last.1.trail_to_claim);
        assert(after.players.dom() =~= s.players.dom());
        assert forall|id: PlayerId|
            #![trigger after.players[id]]
            s.players.contains_key(id) implies (if exists|k: int|
            0 <= k < reports.len() && (#[trigger] reports[k]).0 == id && reports[k].1.hit_boundary {
            after.players[id] == s.players[id].eliminated(config.respawn_delay_ticks)
        } else {
            after.players[id] == s.players[id]
        }) by {
            let hit_front = exists|k: int|
                0 <= k < front.len() && (#[trigger] front[k]).0 == id && front[k].1.hit_boundary;
            let hit = exists|k: int|
                0 <= k < reports.len() && (#[trigger] reports[k]).0 == id
                    && reports[k].1.hit_boundary;
            let seen = before.players[id];
            if hit_front {
                let k = choose|k: int|
                    0 <= k < front.len() && (#[trigger] front[k]).0 == id
                        && front[k].1.hit_boundary;
                assert(reports[k] == front[k]);
            }
            if last.0 == id && last.1.hit_boundary {
                assert(reports[reports.len() - 1] == last);
            }
            if hit {
                let k = choose|k: int|
                    0 <= k < reports.len() && (#[trigger] reports[k]).0 == id
                        && reports[k].1.hit_boundary;
                if k < front.len() {
                    assert(front[k] == reports[k]);
                }
            }
            assert(s.players[id].eliminated(config.respawn_delay_ticks).eliminated(
                config.respawn_delay_ticks,
            ) == s.players[id].eliminated(config.respawn_delay_ticks));
        }
    }
}

/// Eliminations keep the grid and every player in the game; the list of the
/// eliminated only grows; victims end up not alive, and everybody else is
/// left as they were.
pub proof fn lemma_strike_shape(
    s: StateView,
    eliminations: Seq<Elimination>,
    gone: Seq<PlayerId>,
    config: PaperioConfig,
)
    ensures
        s.strike(eliminations, gone, config).0.territory == s.territory,
        s.strike(eliminations, gone, config).0.players.dom() == s.players.dom(),
        gone.len() <= s.strike(eliminations, gone, config).1.len(),
        s.strike(eliminations, gone, config).1.take(gone.len() as int) == gone,
        forall|id: PlayerId|
            #![trigger s.strike(eliminations, gone, config).0.players[id]]
            s.players.contains_key(id) ==> {
                let after = s.strike(eliminations, gone, config).0.players[id];
                after == s.players[id] || (after == s.players[id].eliminated(
                    config.respawn_delay_ticks,
                ) && has_victim(eliminations, id))
            },
        forall|id: PlayerId|
            #![trigger has_victim(eliminations, id)]
            has_victim(eliminations, id) ==> s.strike(eliminations, gone, config).1.contains(id),
    decreases eliminations.len(),
{
    let result = s.strike(eliminations, gone, config);
    if eliminations.len() == 0 {
        assert(result.1.take(gone.len() as int) =~= gone);
        assert forall|id: PlayerId| !has_victim(eliminations, id) by {}
    } else {
        let front = eliminations.drop_last();
        let victim = eliminations.last().victim;
        let before = s.strike(front, gone, config);
        lemma_strike_shape(s, front, gone, config);
        assert(result.0.players.dom() =~= s.players.dom());
        assert(result.1.take(gone.len() as int) =~= gone);
        assert(has_victim(eliminations, victim)) by {
            assert(eliminations[eliminations.len() - 1].victim == victim);
        }
        assert forall|id: PlayerId|
            #![trigger result.0.players[id]]
            s.players.contains_key(id) implies (result.0.players[id] == s.players[id] || (
        result.0.players[id] == s.players[id].eliminated(config.respawn_delay_ticks) && has_victim(
            eliminations,
            id,
        ))) by {
            if has_victim(front, id) {
                let k = choose|k: int| 0 <= k < front.len() && (#[trigger] front[k]).victim == id;
                assert(eliminations[k].victim == id);
            }
            assert(s.players[id].eliminated(config.respawn_delay_ticks).eliminated(
                config.respawn_delay_ticks,
            ) == s.players[id].eliminated(config.respawn_delay_ticks));
        }
        assert forall|id: PlayerId|
            #![trigger has_victim(eliminations, id)]
            has_victim(eliminations, id) implies result.1.contains(id) by {
            let k = choose|k: int|
                0 <= k < eliminations.len() && (#[trigger] eliminations[k]).victim == id;
            if k < front.len() {
                assert(front[k].victim == id);
                assert(has_victim(front, id));
                assert(before.1.contains(id));
                let j = choose|j: int| 0 <= j < before.1.len() && before.1[j] == id;
                assert(result.1[j] == id);
            } else {
                if !before.1.contains(victim) {
                    assert(result.1[before.1.len() as int] == victim);
                }
            }
        }
    }
}

/// A tick keeps the grid well formed and of the same size, so that at every
/// tick every cell has one owner or none.
pub proof fn law_tick_keeps_grid(s: StateView, config: PaperioConfig)
    requires
        s.territory.wf(),
    ensures
        s.ticked(config).state.territory.wf(),
        s.ticked(config).state.territory.width == s.territory.width,
        s.ticked(config).state.territory.height == s.territory.height,
        s.ticked(config).state.players.dom() == s.players.dom(),
{
    let ready = s.due_ids();
    let timed = s.timers_advanced();
    let respawned = timed.respawn_all(ready, config);
    let reports = respawned.move_reports();
    let moved = respawned.moved();
    let settled = moved.settle_moves(reports, config);
    let struck = settled.strike(settled.collisions(), boundary_victims(reports), config);
    assert(timed.players.dom() =~= s.players.dom());
    lemma_respawn_all_shape(timed, ready, config);
    assert(moved.players.dom() =~= respawned.players.dom());
    lemma_settle_moves_shape(moved, reports, config);
    lemma_strike_shape(settled, settled.collisions(), boundary_victims(reports), config);
    assert(struck.0.scored().players.dom() =~= struck.0.players.dom());
}

/// Claiming an empty trail changes nothing and counts nothing.
pub proof fn law_empty_claim(g: GridView, player_id: PlayerId)
    ensures
        g.claimed_by(player_id, Seq::empty()) == g,
        count_gained(g, g.claimed_by(player_id, Seq::empty()), player_id) == 0,
        count_stolen(g, g.claimed_by(player_id, Seq::empty()), player_id) == 0,
        g.robbed(player_id, g.claim_order(player_id, Seq::empty())) == Seq::<PlayerId>::empty(),
{
    lemma_count_pairs_none(g.cells, g.cells, is_gain(player_id));
    lemma_count_pairs_none(g.cells, g.cells, is_theft(player_id));
}

/// What a player owns after a change in which it only gained cells is what
/// it owned before and what it gained.
pub proof fn lemma_gain_is_growth(
    before: Seq<Option<PlayerId>>,
    after: Seq<Option<PlayerId>>,
    player_id: PlayerId,
)
    requires
        before.len() == after.len(),
        forall|i: int|
            0 <= i < before.len() && #[trigger] before[i] == Some(player_id) ==> after[i] == Some(
                player_id,
            ),
    ensures
        count_owned(after, player_id) == count_owned(before, player_id) + count_pairs(
            before,
            after,
            is_gain(player_id),
        ),
    decreases before.len(),
{
    if before.len() > 0 {
        let last = before.len() - 1;
        assert(before[last] == Some(player_id) ==> after[last] == Some(player_id));
        assert forall|i: int|
            0 <= i < before.drop_last().len() && #[trigger] before.drop_last()[i] == Some(
                player_id,
            ) implies after.drop_last()[i] == Some(player_id) by {
            assert(before[i] == Some(player_id));
        }
        lemma_gain_is_growth(before.drop_last(), after.drop_last(), player_id);
    }
}

/// A claim takes nothing from the claimant, and the cells it counts as
/// claimed are exactly the growth of the claimant's territory.
pub proof fn law_claim_is_growth(g: GridView, player_id: PlayerId, trail: Seq<GridPos>)
    requires
        g.wf(),
    ensures
        g.claimed_by(player_id, trail).count_owned_by(player_id) == g.count_owned_by(player_id)
            + count_gained(g, g.claimed_by(player_id, trail), player_id),
        count_stolen(g, g.claimed_by(player_id, trail), player_id) <= count_gained(
            g,
            g.claimed_by(player_id, trail),
            player_id,
        ),
{
    let after = g.claimed_by(player_id, trail);
    lemma_claim_wf(g, player_id, trail);
    if trail.len() > 0 {
        lemma_assign_cells(g, Some(player_id), trail);
        let marked = g.mark_trail(player_id, trail);
        assert forall|i: int|
            0 <= i < g.cells.len() && #[trigger] g.cells[i] == Some(player_id) implies after.cells[i]
            == Some(player_id) by {
            assert(marked.cells[i] == Some(player_id));
        }
    }
    lemma_gain_is_growth(g.cells, after.cells, player_id);
    lemma_theft_is_gain(g.cells, after.cells, player_id);
}

/// Every stolen cell is a gained cell.
pub proof fn lemma_theft_is_gain(
    before: Seq<Option<PlayerId>>,
    after: Seq<Option<PlayerId>>,
    player_id: PlayerId,
)
    ensures
        count_pairs(before, after, is_theft(player_id)) <= count_pairs(
            before,
            after,
            is_gain(player_id),
        ),
    decreases before.len(),
{
    if before.len() > 0 && after.len() == before.len() {
        lemma_theft_is_gain(before.drop_last(), after.drop_last(), player_id);
    }
}

/// A heading can be set unless it turns a living player around: the exact
/// opposite of the heading it moves along is refused, and every other
/// heading is accepted.
pub proof fn law_no_reversal(s: StateView, id: PlayerId, direction: Direction)
    requires
        s.is_alive(id),
    ensures
        s.players[id].direction.spec_is_opposite(direction) ==> s.turn_refusal(id, direction)
            == Some("Cannot reverse direction"@),
        !s.players[id].direction.spec_is_opposite(direction) ==> s.turn_refusal(id, direction)
            == None::<Seq<char>>,
        s.players[id].direction == Direction::Right ==> s.turn_refusal(id, Direction::Left)
            is Some && s.turn_refusal(id, Direction::Up) is None,
        s.players[id].direction == Direction::Up ==> s.turn_refusal(id, Direction::Left) is None,
{
}

/// Respawns touch nobody but the players that respawn; those end up alive,
/// standing still, without trail and with full invulnerability.
pub proof fn lemma_respawn_all_frame(
    s: StateView,
    ids: Seq<PlayerId>,
    config: PaperioConfig,
    id: PlayerId,
)
    requires
        s.players.contains_key(id),
    ensures
        s.respawn_all(ids, config).players.contains_key(id),
        !ids.contains(id) ==> s.respawn_all(ids, config).players[id] == s.players[id],
        ids.contains(id) ==> exists|pos: GridPos|
            s.respawn_all(ids, config).players[id] == #[trigger] s.players[id].respawned(
                pos,
                config.invulnerability_ticks,
            ),
    decreases ids.len(),
{
    if ids.len() > 0 {
        let front = ids.drop_last();
        let before = s.respawn_all(front, config);
        let after = s.respawn_all(ids, config);
        lemma_respawn_all_frame(s, front, config, id);
        if front.contains(id) {
            let k = choose|k: int| 0 <= k < front.len() && front[k] == id;
            assert(ids[k] == id);
        }
        if ids.last() == id {
            assert(ids[ids.len() - 1] == id);
            let pos = before.spawn_choice(config);
            if front.contains(id) {
                let earlier = choose|earlier: GridPos|
                    before.players[id] == #[trigger] s.players[id].respawned(
                        earlier,
                        config.invulnerability_ticks,
                    );
                assert(s.players[id].respawned(earlier, config.invulnerability_ticks).respawned(
                    pos,
                    config.invulnerability_ticks,
                ) == s.players[id].respawned(pos, config.invulnerability_ticks));
            }
            assert(after.players[id] == s.players[id].respawned(
                pos,
                config.invulnerability_ticks,
            ));
        } else {
            if ids.contains(id) {
                let k = choose|k: int| 0 <= k < ids.len() && ids[k] == id;
                assert(front[k] == id);
            }
        }
    }
}

/// Every move report belongs to a player that moved, and every moving
/// player whose step calls for something has its report.
pub proof fn lemma_move_reports(s: StateView, ids: Seq<PlayerId>)
    ensures
        forall|k: int|
            0 <= k < s.move_reports_of(ids).len() ==> {
                let report = #[trigger] s.move_reports_of(ids)[k];
                &&& ids.contains(report.0)
                &&& s.is_moving(report.0)
                &&& report.1 == s.step_report(report.0)
            },
        forall|id: PlayerId|
            #![trigger s.step_report(id)]
            ids.contains(id) && s.is_moving(id) && s.step_report(id).matters()
                ==> s.move_reports_of(ids).contains((id, s.step_report(id))),
    decreases ids.len(),
{
    let all = s.move_reports_of(ids);
    if ids.len() > 0 {
        let front = ids.drop_last();
        let rest = s.move_reports_of(front);
        let last = ids.last();
        lemma_move_reports(s, front);
        assert forall|k: int| 0 <= k < all.len() implies ({
            let report = #[trigger] all[k];
            &&& ids.contains(report.0)
            &&& s.is_moving(report.0)
            &&& report.1 == s.step_report(report.0)
        }) by {
            if k < rest.len() {
                assert(all[k] == rest[k]);
                let j = choose|j: int| 0 <= j < front.len() && front[j] == rest[k].0;
                assert(ids[j] == rest[k].0);
            } else {
                assert(ids[ids.len() - 1] == last);
            }
        }
        assert forall|id: PlayerId|
            #![trigger s.step_report(id)]
            ids.contains(id) && s.is_moving(id) && s.step_report(id).matters() implies all.contains(
            (id, s.step_report(id)),
        ) by {
            let k = choose|k: int| 0 <= k < ids.len() && ids[k] == id;
            if k < front.len() {
                assert(front[k] == id);
                assert(rest.contains((id, s.step_report(id))));
                let j = choose|j: int| 0 <= j < rest.len() && rest[j] == (id, s.step_report(id));
                assert(all[j] == (id, s.step_report(id)));
            } else {
                assert(all[rest.len() as int] == (id, s.step_report(id)));
            }
        }
    } else {
        assert forall|id: PlayerId| !ids.contains(id) by {
            if ids.contains(id) {
                let k = choose|k: int| 0 <= k < ids.len() && ids[k] == id;
            }
        }
    }
}

/// A player with a boundary report is among the boundary victims.
pub proof fn lemma_boundary_victims_has(reports: Seq<(PlayerId, MoveReport)>, k: int)
    requires
        0 <= k < reports.len(),
        reports[k].1.hit_boundary,
    ensures
        boundary_victims(reports).contains(reports[k].0),
    decreases reports.len(),
{
    let front = reports.drop_last();
    let all = boundary_victims(reports);
    if k == reports.len() - 1 {
        assert(all[all.len() - 1] == reports[k].0);
    } else {
        lemma_boundary_victims_has(front, k);
        let rest = boundary_victims(front);
        let j = choose|j: int| 0 <= j < rest.len() && rest[j] == front[k].0;
        assert(all[j] == reports[k].0);
    }
}

/// A living player whose next step would leave the grid is eliminated by
/// the tick: it is listed among the eliminated and is no longer alive. A
/// player in column zero heading left is the plainest case.
pub proof fn law_boundary_elimination(s: StateView, config: PaperioConfig, id: PlayerId)
    requires
        s.territory.wf(),
        s.is_alive(id),
        s.players[id].direction != Direction::Still,
        !s.players[id].can_step(s.territory),
    ensures
        s.ticked(config).eliminated.contains(id),
        s.ticked(config).state.players.contains_key(id),
        !s.ticked(config).state.players[id].alive,
        s.ticked(config).state.players[id].respawn_timer == config.respawn_delay_ticks,
{
    let ready = s.due_ids();
    let timed = s.timers_advanced();
    let respawned = timed.respawn_all(ready, config);
    let reports = respawned.move_reports();
    let moved = respawned.moved();
    let settled = moved.settle_moves(reports, config);
    let gone = boundary_victims(reports);
    let struck = settled.strike(settled.collisions(), gone, config);
    lemma_filter_members(s.ids(), s.is_due());
    lemma_respawn_all_frame(timed, ready, config, id);
    lemma_respawn_all_shape(timed, ready, config);
    lemma_ascending_ids(respawned.players.dom());
    lemma_move_reports(respawned, respawned.ids());
    assert(respawned.players[id] == s.players[id].ticked());
    assert(respawned.step_report(id) == MoveReport::boundary());
    let report = (id, respawned.step_report(id));
    assert(reports.contains(report));
    let k = choose|k: int| 0 <= k < reports.len() && reports[k] == report;
    lemma_boundary_victims_has(reports, k);
    lemma_settle_moves_shape(moved, reports, config);
    assert(settled.players[id] == moved.players[id].eliminated(config.respawn_delay_ticks));
    lemma_strike_shape(settled, settled.collisions(), gone, config);
    let at = choose|at: int| 0 <= at < gone.len() && gone[at] == id;
    assert(struck.1.take(gone.len() as int)[at] == id);
    assert(struck.1[at] == id);
    assert(struck.0.players[id] == settled.players[id]
        || struck.0.players[id] == settled.players[id].eliminated(config.respawn_delay_ticks));
}

/// Elimination leaves a player not alive, without trail or heading, with
/// the respawn countdown at the configured delay.
pub proof fn law_elimination_starts_countdown(s: StateView, id: PlayerId, respawn_delay: u32)
    requires
        s.players.contains_key(id),
    ensures
        !s.eliminate(id, respawn_delay).players[id].alive,
        s.eliminate(id, respawn_delay).players[id].respawn_timer == respawn_delay,
        s.eliminate(id, respawn_delay).players[id].trail.len() == 0,
        s.eliminate(id, respawn_delay).players[id].direction == Direction::Still,
{
}

/// What a tick does to a player that neither respawns nor moves nor
/// collides: its timers run, its score is brought up to date, nothing else.
proof fn lemma_bystander(s: StateView, config: PaperioConfig, id: PlayerId)
    requires
        s.territory.wf(),
        s.players.contains_key(id),
        !s.players[id].alive,
        s.players[id].respawn_timer != 1,
    ensures
        s.ticked(config).state.players.contains_key(id),
        s.ticked(config).state.players[id].alive == s.players[id].ticked().alive,
        s.ticked(config).state.players[id].respawn_timer == s.players[id].ticked().respawn_timer,
        !s.ticked(config).respawns.contains(id),
{
    let ready = s.due_ids();
    let timed = s.timers_advanced();
    let respawned = timed.respawn_all(ready, config);
    let reports = respawned.move_reports();
    let moved = respawned.moved();
    let settled = moved.settle_moves(reports, config);
    let gone = boundary_victims(reports);
    let struck = settled.strike(settled.collisions(), gone, config);
    lemma_filter_members(s.ids(), s.is_due());
    lemma_respawn_all_frame(timed, ready, config, id);
    lemma_respawn_all_shape(timed, ready, config);
    lemma_move_reports(respawned, respawned.ids());
    assert(respawned.players[id] == s.players[id].ticked());
    assert(!respawned.is_moving(id));
    lemma_settle_moves_shape(moved, reports, config);
    assert(settled.players[id] == moved.players[id]);
    lemma_strike_shape(settled, settled.collisions(), gone, config);
    if has_victim(settled.collisions(), id) {
        let k = choose|k: int|
            0 <= k < settled.collisions().len() && (#[trigger] settled.collisions()[k]).victim
                == id;
        assert(settled.collisions().contains(settled.collisions()[k]));
        lemma_victims_vulnerable(settled, settled.collisions()[k]);
    }
}

/// While the respawn countdown of a dead player is above one, a tick takes
/// one off it and leaves the player dead.
pub proof fn law_countdown_runs(s: StateView, config: PaperioConfig, id: PlayerId)
    requires
        s.territory.wf(),
        s.players.contains_key(id),
        !s.players[id].alive,
        s.players[id].respawn_timer > 1,
    ensures
        s.ticked(config).state.players.contains_key(id),
        !s.ticked(config).state.players[id].alive,
        s.ticked(config).state.players[id].respawn_timer == s.players[id].respawn_timer - 1,
        !s.ticked(config).respawns.contains(id),
{
    lemma_bystander(s, config, id);
}

/// The tick that takes the respawn countdown of a dead player from one to
/// zero puts the player back: it is listed among the respawns and ends the
/// tick alive, standing still, with the full invulnerability of the
/// settings. This needs an invulnerability of at least one tick: without
/// it the player can be eliminated again in the same tick.
pub proof fn law_respawn_when_due(s: StateView, config: PaperioConfig, id: PlayerId)
    requires
        s.territory.wf(),
        s.players.contains_key(id),
        !s.players[id].alive,
        s.players[id].respawn_timer == 1,
        config.invulnerability_ticks > 0,
    ensures
        s.ticked(config).respawns.contains(id),
        s.ticked(config).state.players.contains_key(id),
        s.ticked(config).state.players[id].alive,
        s.ticked(config).state.players[id].respawn_timer == 0,
        s.ticked(config).state.players[id].invulnerability_timer == config.invulnerability_ticks,
        s.ticked(config).state.players[id].direction == Direction::Still,
{
    let ready = s.due_ids();
    let timed = s.timers_advanced();
    let respawned = timed.respawn_all(ready, config);
    let reports = respawned.move_reports();
    let moved = respawned.moved();
    let settled = moved.settle_moves(reports, config);
    let gone = boundary_victims(reports);
    let struck = settled.strike(settled.collisions(), gone, config);
    lemma_ascending_ids(s.players.dom());
    lemma_filter_members(s.ids(), s.is_due());
    assert(ready.contains(id));
    lemma_respawn_all_frame(timed, ready, config, id);
    lemma_respawn_all_shape(timed, ready, config);
    lemma_move_reports(respawned, respawned.ids());
    let pos = choose|pos: GridPos|
        respawned.players[id] == #[trigger] timed.players[id].respawned(
            pos,
            config.invulnerability_ticks,
        );
    assert(!respawned.is_moving(id));
    lemma_settle_moves_shape(moved, reports, config);
    assert(settled.players[id] == moved.players[id]);
    lemma_strike_shape(settled, settled.collisions(), gone, config);
    if has_victim(settled.collisions(), id) {
        let k = choose|k: int|
            0 <= k < settled.collisions().len() && (#[trigger] settled.collisions()[k]).victim
                == id;
        assert(settled.collisions().contains(settled.collisions()[k]));
        lemma_victims_vulnerable(settled, settled.collisions()[k]);
    }
}

/// After scoring, every player's score is its share of the grid in
/// hundredths of a percent; ten cells of a hundred make 1000.
pub proof fn law_score_is_share(s: StateView, id: PlayerId)
    requires
        s.players.contains_key(id),
    ensures
        s.scored().players[id].score == s.territory.score_of(id) as u32,
        0 <= s.territory.score_of(id) <= 10000,
        s.territory.cells.len() == 100 && s.territory.count_owned_by(id) == 10
            ==> s.scored().players[id].score == 1000,
{
    crate::scoring::lemma_score_bounds(s.territory, id);
}

} // verus!
