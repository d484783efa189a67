use vstd::prelude::*;
use std::collections::HashMap;
use crate::game::PlayerId;
use crate::roster::ascending_ids;
use crate::roster::entry_mut;
use crate::roster::lemma_ascending_ids;
use crate::roster::sorted_keys;

verus! {

/// Where a room stands between opening and closing.
#[derive(Debug, Clone, Copy, PartialEq, Eq, Structural)]
pub enum RoomState {
    Waiting,
    Playing,
    Ended,
}

/// Why a room operation was turned down.
#[derive(Debug, Clone, Copy, PartialEq, Eq, Structural)]
pub enum RoomError {
    RoomFull,
    GameInProgress,
    AlreadyInRoom,
    NotInRoom,
    RoomNotFound,
}

/// A player in a room.
#[derive(Debug, Clone)]
pub struct RoomPlayer {
    pub player_id: PlayerId,
    pub name: String,
    pub ready: bool,
}

/// The mathematical content of a [`RoomPlayer`].
pub struct RoomPlayerView {
    pub player_id: PlayerId,
    pub name: Seq<char>,
    pub ready: bool,
}

impl View for RoomPlayer {
    type V = RoomPlayerView;

    open spec fn view(&self) -> RoomPlayerView {
        RoomPlayerView { player_id: self.player_id, name: self.name@, ready: self.ready }
    }
}

/// A game room: its code, who is in it, and how far it has come.
#[derive(Debug)]
pub struct Room {
    pub code: String,
    pub players: HashMap<PlayerId, RoomPlayer>,
    pub state: RoomState,
    pub max_players: usize,
}

/// The mathematical content of a [`Room`].
pub struct RoomView {
    pub code: Seq<char>,
    pub players: Map<PlayerId, RoomPlayerView>,
    pub state: RoomState,
    pub max_players: usize,
}

impl View for Room {
    type V = RoomView;

    open spec fn view(&self) -> RoomView {
        RoomView {
            code: self.code@,
            players: self.players@.map_values(|p: RoomPlayer| p@),
            state: self.state,
            max_players: self.max_players,
        }
    }
}

impl RoomView {
    /// An empty room that waits for players.
    pub open spec fn fresh(code: Seq<char>, max_players: usize) -> RoomView {
        RoomView { code, players: Map::empty(), state: RoomState::Waiting, max_players }
    }

    /// Why `id` cannot enter, if it cannot: the room no longer waits, is
    /// full, or holds the player already; in this order.
    pub open spec fn add_refusal(self, id: PlayerId) -> Option<RoomError> {
        if self.state != RoomState::Waiting {
            Some(RoomError::GameInProgress)
        } else if self.players.len() >= self.max_players {
            Some(RoomError::RoomFull)
        } else if self.players.contains_key(id) {
            Some(RoomError::AlreadyInRoom)
        } else {
            None
        }
    }

    /// The room with `id` in it, not ready yet.
    pub open spec fn with_player(self, id: PlayerId, name: Seq<char>) -> RoomView {
        RoomView {
            players: self.players.insert(
                id,
                RoomPlayerView { player_id: id, name, ready: false },
            ),
            ..self
        }
    }

    /// The room without `id`.
    pub open spec fn without_player(self, id: PlayerId) -> RoomView {
        RoomView { players: self.players.remove(id), ..self }
    }

    /// The room with the readiness of `id` set.
    pub open spec fn with_ready(self, id: PlayerId, ready: bool) -> RoomView {
        RoomView {
            players: self.players.insert(id, RoomPlayerView { ready, ..self.players[id] }),
            ..self
        }
    }

    /// Whether there is a player and every player is ready.
    pub open spec fn all_ready(self) -> bool {
        &&& exists|id: PlayerId| self.players.contains_key(id)
        &&& forall|id: PlayerId| self.players.contains_key(id) ==> self.players[id].ready
    }
}

impl Room {
    pub fn new(code: String, max_players: usize) -> (room: Self)
        ensures
            room@ == RoomView::fresh(code@, max_players),
    {
        let room = Self { code, players: HashMap::new(), state: RoomState::Waiting, max_players };
        assert(room@.players =~= Map::<PlayerId, RoomPlayerView>::empty());
        room
    }

    /// Lets a player in, unless the room no longer waits, is full, or holds
    /// the player already.
    pub fn add_player(&mut self, player_id: PlayerId, name: String) -> (result: Result<
        (),
        RoomError,
    >)
        ensures
            match result {
                Ok(_) => old(self)@.add_refusal(player_id).is_none() && final(self)@ == old(
                    self,
                )@.with_player(player_id, name@),
                Err(error) => old(self)@.add_refusal(player_id) == Some(error) && final(self)@
                    == old(self)@,
            },
    {
        broadcast use vstd::std_specs::hash::group_hash_axioms;

        proof {
            assert(self@.players.dom() =~= self.players@.dom());
        }
        if self.state != RoomState::Waiting {
            return Err(RoomError::GameInProgress);
        }
        if self.players.len() >= self.max_players {
            return Err(RoomError::RoomFull);
        }
        if self.players.contains_key(&player_id) {
            return Err(RoomError::AlreadyInRoom);
        }
        let ghost entered = RoomPlayerView { player_id, name: name@, ready: false };
        self.players.insert(player_id, RoomPlayer { player_id, name, ready: false });
        proof {
            assert(self@.players =~= old(self)@.players.insert(player_id, entered));
        }
        Ok(())
    }

    /// Takes a player out and hands it back, if it was in.
    pub fn remove_player(&mut self, player_id: PlayerId) -> (removed: Option<RoomPlayer>)
        ensures
            final(self)@ == old(self)@.without_player(player_id),
            match removed {
                Some(player) => old(self)@.players.contains_key(player_id) && player@ == old(
                    self,
                )@.players[player_id],
                None => !old(self)@.players.contains_key(player_id),
            },
    {
        broadcast use vstd::std_specs::hash::group_hash_axioms;

        let removed = self.players.remove(&player_id);
        proof {
            assert(self@.players =~= old(self)@.players.remove(player_id));
        }
        removed
    }

    /// Sets the readiness of a player of the room.
    pub fn set_ready(&mut self, player_id: PlayerId, ready: bool) -> (result: Result<(), RoomError>)
        ensures
            match result {
                Ok(_) => old(self)@.players.contains_key(player_id) && final(self)@ == old(
                    self,
                )@.with_ready(player_id, ready),
                Err(error) => error == RoomError::NotInRoom && !old(self)@.players.contains_key(
                    player_id,
                ) && final(self)@ == old(self)@,
            },
    {
        match entry_mut(&mut self.players, player_id) {
            Some(player) => {
                player.ready = ready;
                proof {
                    assert(old(self).players@.insert(player_id, *final(player)).map_values(
                        |p: RoomPlayer| p@,
                    ) =~= old(self)@.players.insert(player_id, final(player)@));
                }
                Ok(())
            },
            None => Err(RoomError::NotInRoom),
        }
    }

    /// Whether there is a player and every player is ready.
    pub fn all_ready(&self) -> (ready: bool)
        ensures
            ready == self@.all_ready(),
    {
        broadcast use vstd::std_specs::hash::group_hash_axioms;

        let ids = sorted_keys(&self.players);
        proof {
            lemma_ascending_ids(self.players@.dom());
            assert(self@.players.dom() =~= self.players@.dom());
        }
        if ids.len() == 0 {
            proof {
                assert forall|id: PlayerId| !self@.players.contains_key(id) by {
                    assert(!ids@.contains(id));
                }
            }
            return false;
        }
        assert(ids@.contains(ids@[0]));
        let mut i: usize = 0;
        while i < ids.len()
            invariant
                i <= ids@.len(),
                self@.players.dom() == self.players@.dom(),
                forall|id: PlayerId| ids@.contains(id) <==> self.players@.dom().contains(id),
                forall|k: int| 0 <= k < i ==> self@.players[#[trigger] ids@[k]].ready,
            decreases ids@.len() - i,
        {
            assert(ids@.contains(ids@[i as int]));
            match self.players.get(&ids[i]) {
                Some(player) => {
                    if !player.ready {
                        proof {
                            assert(self@.players.contains_key(ids@[i as int]));
                            assert(!self@.players[ids@[i as int]].ready);
                        }
                        return false;
                    }
                },
                None => {},
            }
            i += 1;
        }
        proof {
            assert forall|id: PlayerId| self@.players.contains_key(id) implies self@.players[id].ready by {
                assert(ids@.contains(id));
                let k = choose|k: int| 0 <= k < ids@.len() && ids@[k] == id;
                assert(self@.players[ids@[k]].ready);
            }
        }
        true
    }

    pub fn player_count(&self) -> (count: usize)
        ensures
            count == self@.players.len(),
    {
        broadcast use vstd::std_specs::hash::group_hash_axioms;

        proof {
            assert(self@.players.dom() =~= self.players@.dom());
        }
        self.players.len()
    }

    pub fn is_empty(&self) -> (empty: bool)
        ensures
            empty == (self@.players.len() == 0),
    {
        self.player_count() == 0
    }

    /// The ids of the players in the room, smallest first.
    pub fn get_player_ids(&self) -> (ids: Vec<PlayerId>)
        ensures
            ids@ == ascending_ids(self@.players.dom()),
    {
        let ids = sorted_keys(&self.players);
        proof {
            assert(self@.players.dom() =~= self.players@.dom());
        }
        ids
    }
}

} // verus!
