use vstd::prelude::*;
use crate::game::PlayerId;
use crate::player::PlayerView;
use crate::roster::lemma_ascending_ids;
use crate::state::GameState;
use crate::state::StateView;
use crate::territory::GridView;
use crate::territory::TerritoryGrid;
use crate::territory::lemma_count_bound;

verus! {

impl GridView {
    /// The share of the grid that `player_id` owns, in hundredths of a
    /// percent, rounded down; zero on a grid without cells.
    pub open spec fn score_of(self, player_id: PlayerId) -> int {
        if self.cells.len() == 0 {
            0
        } else {
            (10000 * (self.count_owned_by(player_id) as int)) / (self.cells.len() as int)
        }
    }
}

impl StateView {
    /// The state after every player's score is set to its share of the grid.
    pub open spec fn scored(self) -> StateView {
        StateView {
            players: Map::new(
                |id: PlayerId| self.players.contains_key(id),
                |id: PlayerId|
                    PlayerView { score: self.territory.score_of(id) as u32, ..self.players[id] },
            ),
            ..self
        }
    }
}

/// A score never exceeds the whole: 100.00 percent.
pub proof fn lemma_score_bounds(g: GridView, player_id: PlayerId)
    ensures
        0 <= g.score_of(player_id) <= 10000,
{
    lemma_count_bound(g.cells, player_id);
    if g.cells.len() > 0 {
        let owned = g.count_owned_by(player_id) as int;
        let total = g.cells.len() as int;
        assert(0 <= (10000 * owned) / total <= 10000) by (nonlinear_arith)
            requires
                0 <= owned <= total,
                total > 0,
        ;
    }
}

/// The score of `player_id` on `territory`.
pub fn ownership_score(territory: &TerritoryGrid, player_id: PlayerId) -> (score: u32)
    ensures
        score == territory@.score_of(player_id),
{
    let owned = territory.count_owned_by(player_id);
    let total = territory.get_total_cells();
    proof {
        lemma_score_bounds(territory@, player_id);
        lemma_count_bound(territory@.cells, player_id);
    }
    if total == 0 {
        0
    } else {
        ((10000u128 * (owned as u128)) / (total as u128)) as u32
    }
}

/// Sets every player's score to its share of the grid.
pub fn update_scores(state: &mut GameState)
    ensures
        final(state)@ == old(state)@.scored(),
{
    let ghost before = state@;
    let ids = state.get_player_ids();
    proof {
        lemma_ascending_ids(before.players.dom());
    }
    let mut i: usize = 0;
    while i < ids.len()
        invariant
            i <= ids@.len(),
            ids@ == before.ids(),
            ids@.no_duplicates(),
            forall|id: PlayerId| ids@.contains(id) <==> before.players.contains_key(id),
            state@.territory == before.territory,
            state@.players.dom() == before.players.dom(),
            forall|k: int|
                0 <= k < ids@.len() ==> state@.players[#[trigger] ids@[k]] == (if k < i {
                    before.scored().players[ids@[k]]
                } else {
                    before.players[ids@[k]]
                }),
        decreases ids@.len() - i,
    {
        let id = ids[i];
        let ghost now = state@;
        let score = ownership_score(&state.territory, id);
        proof {
            assert(ids@.contains(ids@[i as int]));
            assert(now.players[ids@[i as int]] == before.players[id]);
        }
        match state.get_player_mut(id) {
            Some(player) => {
                player.score = score;
            },
            None => {},
        }
        proof {
            assert(state@.players.dom() =~= before.players.dom());
            assert forall|k: int| 0 <= k < ids@.len() implies state@.players[#[trigger] ids@[k]]
                == (if k < i + 1 {
                before.scored().players[ids@[k]]
            } else {
                before.players[ids@[k]]
            }) by {
                if k != i {
                    assert(ids@[k] != ids@[i as int]);
                    assert(now.players[ids@[k]] == (if k < i {
                        before.scored().players[ids@[k]]
                    } else {
                        before.players[ids@[k]]
                    }));
                }
            }
        }
        i += 1;
    }
    proof {
        assert forall|id: PlayerId| state@.players.contains_key(id) implies state@.players[id]
            == before.scored().players[id] by {
            assert(ids@.contains(id));
            let k = choose|k: int| 0 <= k < ids@.len() && ids@[k] == id;
            assert(state@.players[ids@[k]] == before.scored().players[id]);
        }
        assert(state@.players =~= before.scored().players);
    }
}

} // verus!
