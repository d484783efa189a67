use vstd::prelude::*;
use crate::game::PlayerId;
use crate::player::PlayerView;
use crate::roster::lemma_ascending_ids;
use crate::state::GameState;
use crate::state::StateView;

verus! {

impl PlayerView {
    /// The player one tick later: invulnerability runs down in any case,
    /// the respawn countdown only while the player is dead.
    pub open spec fn ticked(self) -> PlayerView {
        PlayerView {
            invulnerability_timer: if self.invulnerability_timer > 0 {
                (self.invulnerability_timer - 1) as u32
            } else {
                0
            },
            respawn_timer: if !self.alive && self.respawn_timer > 0 {
                (self.respawn_timer - 1) as u32
            } else {
                self.respawn_timer
            },
            ..self
        }
    }

    /// Whether the respawn countdown reaches zero with this tick.
    pub open spec fn is_due(self) -> bool {
        !self.alive && self.respawn_timer == 1
    }
}

impl StateView {
    /// The state after every player's timers have run one tick.
    pub open spec fn timers_advanced(self) -> StateView {
        StateView { players: self.players.map_values(|p: PlayerView| p.ticked()), ..self }
    }

    /// Whether the respawn countdown of `id` reaches zero with this tick.
    pub open spec fn is_due(self) -> spec_fn(PlayerId) -> bool {
        |id: PlayerId| self.players[id].is_due()
    }

    /// The players whose respawn countdown reaches zero with this tick, by
    /// ascending id.
    pub open spec fn due_ids(self) -> Seq<PlayerId> {
        self.ids().filter(self.is_due())
    }
}

/// Runs every player's timers one tick and returns the players that are
/// ready to respawn, by ascending id.
pub fn update_timers(state: &mut GameState) -> (ready: Vec<PlayerId>)
    ensures
        final(state)@ == old(state)@.timers_advanced(),
        ready@ == old(state)@.due_ids(),
{
    let ghost before = state@;
    let ghost due = before.is_due();
    let ids = state.get_player_ids();
    let mut ready: Vec<PlayerId> = Vec::new();
    proof {
        lemma_ascending_ids(before.players.dom());
    }
    let mut i: usize = 0;
    while i < ids.len()
        invariant
            i <= ids@.len(),
            ids@ == before.ids(),
            ids@.no_duplicates(),
            due == before.is_due(),
            forall|id: PlayerId| ids@.contains(id) <==> before.players.contains_key(id),
            state@.territory == before.territory,
            state@.players.dom() == before.players.dom(),
            forall|k: int|
                0 <= k < ids@.len() ==> state@.players[#[trigger] ids@[k]] == (if k < i {
                    before.players[ids@[k]].ticked()
                } else {
                    before.players[ids@[k]]
                }),
            ready@ == ids@.take(i as int).filter(due),
        decreases ids@.len() - i,
    {
        let id = ids[i];
        let ghost now = state@;
        proof {
            assert(ids@.take(i + 1) =~= ids@.take(i as int).push(id));
            ids@.take(i as int).lemma_filter_push(id, due);
            assert(ids@.contains(ids@[i as int]));
            assert(now.players[ids@[i as int]] == before.players[id]);
        }
        match state.get_player_mut(id) {
            Some(player) => {
                if player.invulnerability_timer > 0 {
                    player.invulnerability_timer -= 1;
                }
                if !player.alive && player.respawn_timer > 0 {
                    player.respawn_timer -= 1;
                    if player.respawn_timer == 0 {
                        ready.push(id);
                    }
                }
            },
            None => {},
        }
        proof {
            assert(state@.players.dom() =~= before.players.dom());
            assert forall|k: int| 0 <= k < ids@.len() implies state@.players[#[trigger] ids@[k]]
                == (if k < i + 1 {
                before.players[ids@[k]].ticked()
            } else {
                before.players[ids@[k]]
            }) by {
                if k != i {
                    assert(ids@[k] != ids@[i as int]);
                    assert(now.players[ids@[k]] == (if k < i {
                        before.players[ids@[k]].ticked()
                    } else {
                        before.players[ids@[k]]
                    }));
                }
            }
        }
        i += 1;
    }
    proof {
        assert(ids@.take(i as int) =~= ids@);
        assert forall|id: PlayerId| state@.players.contains_key(id) implies state@.players[id]
            == before.timers_advanced().players[id] by {
            assert(ids@.contains(id));
            let k = choose|k: int| 0 <= k < ids@.len() && ids@[k] == id;
            assert(state@.players[ids@[k]] == before.players[id].ticked());
        }
        assert(state@.players =~= before.timers_advanced().players);
    }
    ready
}

} // verus!
