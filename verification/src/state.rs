use vstd::prelude::*;
use std::collections::HashMap;
use crate::game::PlayerId;
use crate::player::Player;
use crate::player::PlayerView;
use crate::roster::ascending_ids;
use crate::roster::entry_mut;
use crate::roster::sorted_keys;
use crate::roster::is_ascending;
use crate::roster::lemma_ascending_ids;
use crate::roster::lemma_filter_keeps_order;
use crate::roster::lemma_filter_members;
use crate::territory::GridView;
use crate::territory::TerritoryGrid;

verus! {

/// Everything a game holds: its players by id and the ownership grid.
#[derive(Debug)]
pub struct GameState {
    /// All players in the game, keyed by their id.
    pub players: HashMap<PlayerId, Player>,
    /// Territory ownership grid.
    pub territory: TerritoryGrid,
}

/// The mathematical content of a [`GameState`].
pub struct StateView {
    pub players: Map<PlayerId, PlayerView>,
    pub territory: GridView,
}

impl View for GameState {
    type V = StateView;

    open spec fn view(&self) -> StateView {
        StateView { players: players_view(self.players@), territory: self.territory@ }
    }
}

/// The players of a map, each by its view.
pub open spec fn players_view(players: Map<PlayerId, Player>) -> Map<PlayerId, PlayerView> {
    players.map_values(|p: Player| p@)
}

impl StateView {
    /// The ids of all players, smallest first.
    pub open spec fn ids(self) -> Seq<PlayerId> {
        ascending_ids(self.players.dom())
    }

    /// Whether `id` names a player that is in the world.
    pub open spec fn is_alive(self, id: PlayerId) -> bool {
        self.players.contains_key(id) && self.players[id].alive
    }

    /// The ids of the living players, smallest first.
    pub open spec fn alive_ids(self) -> Seq<PlayerId> {
        self.ids().filter(|id: PlayerId| self.is_alive(id))
    }

    /// The living ids are exactly the ids of living players, in increasing
    /// order.
    pub proof fn lemma_alive_ids(self)
        ensures
            is_ascending(self.alive_ids()),
            forall|id: PlayerId| self.alive_ids().contains(id) <==> self.is_alive(id),
            forall|k: int|
                0 <= k < self.alive_ids().len() ==> self.is_alive(#[trigger] self.alive_ids()[k]),
    {
        let ids = self.ids();
        let pred = |id: PlayerId| self.is_alive(id);
        let alive = ids.filter(pred);
        lemma_ascending_ids(self.players.dom());
        lemma_filter_keeps_order(ids, pred);
        lemma_filter_members(ids, pred);
        assert forall|k: int| 0 <= k < alive.len() implies self.is_alive(#[trigger] alive[k]) by {
            assert(alive.contains(alive[k]));
        }
    }
}

impl GameState {
    /// A game without players on an all-unowned grid.
    pub fn new(width: u32, height: u32) -> (state: Self)
        requires
            width * height <= usize::MAX,
        ensures
            state@.players == Map::<PlayerId, PlayerView>::empty(),
            state@.territory == GridView::unowned(width as nat, height as nat),
    {
        let state = Self { players: HashMap::new(), territory: TerritoryGrid::new(width, height) };
        assert(state@.players =~= Map::<PlayerId, PlayerView>::empty());
        state
    }

    pub fn get_player(&self, id: PlayerId) -> (player: Option<&Player>)
        ensures
            match player {
                Some(p) => self@.players.contains_key(id) && p@ == self@.players[id] && *p
                    == self.players@[id],
                None => !self@.players.contains_key(id),
            },
    {
        broadcast use vstd::std_specs::hash::group_hash_axioms;

        self.players.get(&id)
    }

    pub fn get_player_mut(&mut self, id: PlayerId) -> (player: Option<&mut Player>)
        ensures
            final(self).territory == old(self).territory,
            match player {
                Some(p) => {
                    &&& old(self)@.players.contains_key(id)
                    &&& *p == old(self).players@[id]
                    &&& final(self).players@ == old(self).players@.insert(id, *final(p))
                    &&& final(self)@.players == old(self)@.players.insert(id, final(p)@)
                },
                None => !old(self)@.players.contains_key(id) && final(self)@ == old(self)@,
            },
    {
        match entry_mut(&mut self.players, id) {
            Some(p) => {
                proof {
                    assert(players_view(old(self).players@.insert(id, *final(p)))
                        =~= players_view(old(self).players@).insert(id, final(p)@));
                }
                Some(p)
            },
            None => None,
        }
    }

    /// The ids of all players, smallest first.
    pub fn get_player_ids(&self) -> (ids: Vec<PlayerId>)
        ensures
            ids@ == self@.ids(),
    {
        broadcast use vstd::std_specs::hash::group_hash_axioms;

        let ids = sorted_keys(&self.players);
        proof {
            assert(self@.players.dom() =~= self.players@.dom());
        }
        ids
    }

    /// The ids of the living players, smallest first.
    pub fn get_alive_ids(&self) -> (alive: Vec<PlayerId>)
        ensures
            alive@ == self@.alive_ids(),
    {
        broadcast use vstd::std_specs::hash::group_hash_axioms;

        let ids = self.get_player_ids();
        let mut alive: Vec<PlayerId> = Vec::new();
        let ghost pred = |id: PlayerId| self@.is_alive(id);
        let mut i: usize = 0;
        while i < ids.len()
            invariant
                i <= ids@.len(),
                ids@ == self@.ids(),
                pred == |id: PlayerId| self@.is_alive(id),
                alive@ == ids@.take(i as int).filter(pred),
            decreases ids@.len() - i,
        {
            proof {
                assert(ids@.take(i + 1) =~= ids@.take(i as int).push(ids@[i as int]));
                ids@.take(i as int).lemma_filter_push(ids@[i as int], pred);
            }
            match self.players.get(&ids[i]) {
                Some(p) => {
                    if p.alive {
                        alive.push(ids[i]);
                    }
                },
                None => {},
            }
            i += 1;
        }
        proof {
            assert(ids@.take(i as int) =~= ids@);
        }
        alive
    }

    /// The living players, by ascending id.
    pub fn get_alive_players(&self) -> (alive: Vec<&Player>)
        ensures
            alive@.len() == self@.alive_ids().len(),
            forall|i: int|
                0 <= i < alive@.len() ==> *alive@[i] == self.players@[self@.alive_ids()[i]],
    {
        broadcast use vstd::std_specs::hash::group_hash_axioms;

        let ids = self.get_alive_ids();
        let mut alive: Vec<&Player> = Vec::new();
        proof {
            self@.lemma_alive_ids();
        }
        let mut i: usize = 0;
        while i < ids.len()
            invariant
                i <= ids@.len(),
                ids@ == self@.alive_ids(),
                forall|k: int| 0 <= k < ids@.len() ==> self@.is_alive(#[trigger] ids@[k]),
                alive@.len() == i,
                forall|k: int| 0 <= k < i ==> *alive@[k] == self.players@[ids@[k]],
            decreases ids@.len() - i,
        {
            assert(self@.is_alive(ids@[i as int]));
            match self.players.get(&ids[i]) {
                Some(p) => {
                    alive.push(p);
                },
                None => {},
            }
            i += 1;
        }
        alive
    }

    pub fn get_alive_count(&self) -> (n: usize)
        ensures
            n == self@.alive_ids().len(),
    {
        self.get_alive_players().len()
    }
}

} // verus!
