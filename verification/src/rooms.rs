use vstd::prelude::*;
use std::collections::HashMap;
use crate::game::PlayerId;
use crate::roster::ascending_ids;
use crate::room::Room;
use crate::room::RoomError;
use crate::room::RoomView;
use crate::text_map::TextMap;

verus! {

/// The mathematical content of a [`RoomManager`]: the rooms by their code,
/// and the code of the room that each player is in.
pub struct ManagerView {
    pub rooms: Map<Seq<char>, RoomView>,
    pub player_room: Map<PlayerId, Seq<char>>,
    pub max_players_per_room: usize,
}

impl ManagerView {
    /// The rooms after room `code` is opened, unless there is one already.
    pub open spec fn opened(self, code: Seq<char>) -> ManagerView {
        if self.rooms.contains_key(code) {
            self
        } else {
            ManagerView {
                rooms: self.rooms.insert(code, RoomView::fresh(code, self.max_players_per_room)),
                ..self
            }
        }
    }

    /// The rooms after `player_id` leaves the room it is in: the player is
    /// in no room, and a room left empty is closed.
    pub open spec fn left(self, player_id: PlayerId) -> ManagerView {
        if !self.player_room.contains_key(player_id) {
            self
        } else {
            let code = self.player_room[player_id];
            ManagerView {
                player_room: self.player_room.remove(player_id),
                rooms: if !self.rooms.contains_key(code) {
                    self.rooms
                } else if self.rooms[code].without_player(player_id).players.len() == 0 {
                    self.rooms.remove(code)
                } else {
                    self.rooms.insert(code, self.rooms[code].without_player(player_id))
                },
                ..self
            }
        }
    }

    /// The code of the room that a request to join `room_code` leads to: the
    /// code itself, or `fresh_code` where the request names none.
    pub open spec fn join_code(room_code: Seq<char>, fresh_code: Seq<char>) -> Seq<char> {
        if room_code.len() == 0 {
            fresh_code
        } else {
            room_code
        }
    }

    /// The rooms as a request to join finds them: the player has left the
    /// room it was in, and the room asked for is open.
    pub open spec fn ready_to_join(
        self,
        room_code: Seq<char>,
        player_id: PlayerId,
        fresh_code: Seq<char>,
    ) -> ManagerView {
        self.left(player_id).opened(Self::join_code(room_code, fresh_code))
    }

    /// Why a request to join is turned down, if it is.
    pub open spec fn join_refusal(
        self,
        room_code: Seq<char>,
        player_id: PlayerId,
        fresh_code: Seq<char>,
    ) -> Option<RoomError> {
        let code = Self::join_code(room_code, fresh_code);
        self.ready_to_join(room_code, player_id, fresh_code).rooms[code].add_refusal(player_id)
    }

    /// The rooms after a request to join. The player leaves the room it is
    /// in; the room asked for is opened if need be; and unless that room
    /// turns the player down, the player is in it.
    pub open spec fn joined(
        self,
        room_code: Seq<char>,
        player_id: PlayerId,
        name: Seq<char>,
        fresh_code: Seq<char>,
    ) -> ManagerView {
        let code = Self::join_code(room_code, fresh_code);
        let found = self.ready_to_join(room_code, player_id, fresh_code);
        if self.join_refusal(room_code, player_id, fresh_code).is_some() {
            found
        } else {
            ManagerView {
                rooms: found.rooms.insert(code, found.rooms[code].with_player(player_id, name)),
                player_room: found.player_room.insert(player_id, code),
                ..found
            }
        }
    }

    /// Why the readiness of `player_id` cannot be set, if it cannot.
    pub open spec fn ready_refusal(self, player_id: PlayerId) -> Option<RoomError> {
        if !self.player_room.contains_key(player_id) {
            Some(RoomError::NotInRoom)
        } else if !self.rooms.contains_key(self.player_room[player_id]) {
            Some(RoomError::RoomNotFound)
        } else if !self.rooms[self.player_room[player_id]].players.contains_key(player_id) {
            Some(RoomError::NotInRoom)
        } else {
            None
        }
    }
}

/// The symbols that room codes are made of: letters and digits that are
/// hard to mistake for one another.
pub open spec fn code_symbols() -> Seq<char> {
    "ABCDEFGHJKLMNPQRSTUVWXYZ23456789"@
}

/// The four-symbol room code of a seed: its four lowest base-32 digits,
/// lowest first.
pub open spec fn spec_room_code(seed: u128) -> Seq<char> {
    seq![
        code_symbols()[(seed % 32) as int],
        code_symbols()[(seed / 32 % 32) as int],
        code_symbols()[(seed / 1024 % 32) as int],
        code_symbols()[(seed / 32768 % 32) as int],
    ]
}

/// The four-symbol room code of a seed.
pub fn room_code_from_seed(seed: u128) -> (code: String)
    ensures
        code@ == spec_room_code(seed),
{
    let symbols = "ABCDEFGHJKLMNPQRSTUVWXYZ23456789";
    proof {
        reveal_strlit("ABCDEFGHJKLMNPQRSTUVWXYZ23456789");
    }
    let mut code = String::new();
    let mut n: u128 = seed;
    let mut i: usize = 0;
    while i < 4
        invariant
            i <= 4,
            symbols@ == code_symbols(),
            symbols@.len() == 32,
            symbols.is_ascii(),
            code@.len() == i,
            i == 0 ==> n == seed,
            i == 1 ==> n == seed / 32,
            i == 2 ==> n == seed / 1024,
            i == 3 ==> n == seed / 32768,
            forall|k: int| 0 <= k < i ==> code@[k] == spec_room_code(seed)[k],
        decreases 4 - i,
    {
        let digit: usize = (n % 32) as usize;
        let symbol = symbols.substring_ascii(digit, digit + 1);
        let ghost before = code@;
        code.append(symbol);
        proof {
            assert(symbol@ =~= seq![symbols@[digit as int]]);
            assert(code@ =~= before.push(symbols@[digit as int]));
            assert(seed / 32 / 32 == seed / 1024) by (nonlinear_arith);
            assert(seed / 1024 / 32 == seed / 32768) by (nonlinear_arith);
        }
        n = n / 32;
        i += 1;
    }
    proof {
        assert(code@ =~= spec_room_code(seed));
    }
    code
}

/// The rooms of a map, each by its view.
pub open spec fn room_views(rooms: Map<Seq<char>, Room>) -> Map<Seq<char>, RoomView> {
    rooms.map_values(|room: Room| room@)
}

/// Viewing the rooms goes along with putting one in and taking one out.
pub proof fn lemma_room_views(rooms: Map<Seq<char>, Room>, code: Seq<char>, room: Room)
    ensures
        room_views(rooms.insert(code, room)) == room_views(rooms).insert(code, room@),
        room_views(rooms.remove(code)) == room_views(rooms).remove(code),
{
    assert(room_views(rooms.insert(code, room)) =~= room_views(rooms).insert(code, room@));
    assert(room_views(rooms.remove(code)) =~= room_views(rooms).remove(code));
}

/// All rooms, and which player is in which.
pub struct RoomManager {
    rooms: TextMap<Room>,
    player_room: HashMap<PlayerId, String>,
    max_players_per_room: usize,
}

impl View for RoomManager {
    type V = ManagerView;

    closed spec fn view(&self) -> ManagerView {
        ManagerView {
            rooms: room_views(self.rooms@),
            player_room: self.player_room@.map_values(|code: String| code@),
            max_players_per_room: self.max_players_per_room,
        }
    }
}

impl RoomManager {
    /// The manager is in one piece.
    pub closed spec fn wf(&self) -> bool {
        self.rooms.wf()
    }

    pub fn new(max_players_per_room: usize) -> (manager: Self)
        ensures
            manager.wf(),
            manager@ == (ManagerView {
                rooms: Map::empty(),
                player_room: Map::empty(),
                max_players_per_room,
            }),
    {
        let manager = Self {
            rooms: TextMap::new(),
            player_room: HashMap::new(),
            max_players_per_room,
        };
        proof {
            assert(manager@.rooms =~= Map::<Seq<char>, RoomView>::empty());
            assert(manager@.player_room =~= Map::<PlayerId, Seq<char>>::empty());
        }
        manager
    }

    /// Whether there is a room with the code `code`.
    pub fn has_room(&self, code: &str) -> (found: bool)
        ensures
            found == self@.rooms.contains_key(code@),
    {
        self.rooms.contains_key(code)
    }

    /// Get room by code.
    pub fn get_room(&self, code: &str) -> (room: Option<&Room>)
        requires
            self.wf(),
        ensures
            match room {
                Some(r) => self@.rooms.contains_key(code@) && r@ == self@.rooms[code@],
                None => !self@.rooms.contains_key(code@),
            },
    {
        self.rooms.get(code)
    }

    /// The ids of the players in a room, smallest first; none where there is
    /// no such room.
    pub fn get_room_player_ids(&self, room_code: &str) -> (ids: Vec<PlayerId>)
        requires
            self.wf(),
        ensures
            ids@ == (if self@.rooms.contains_key(room_code@) {
                ascending_ids(self@.rooms[room_code@].players.dom())
            } else {
                Seq::empty()
            }),
    {
        match self.get_room(room_code) {
            Some(room) => room.get_player_ids(),
            None => Vec::new(),
        }
    }

    /// Get room by player id.
    pub fn get_player_room(&self, player_id: PlayerId) -> (room: Option<&Room>)
        requires
            self.wf(),
        ensures
            match room {
                Some(r) => {
                    &&& self@.player_room.contains_key(player_id)
                    &&& self@.rooms.contains_key(self@.player_room[player_id])
                    &&& r@ == self@.rooms[self@.player_room[player_id]]
                },
                None => !self@.player_room.contains_key(player_id) || !self@.rooms.contains_key(
                    self@.player_room[player_id],
                ),
            },
    {
        broadcast use vstd::std_specs::hash::group_hash_axioms;

        match self.player_room.get(&player_id) {
            Some(code) => self.rooms.get(code.as_str()),
            None => None,
        }
    }

    /// A mutable borrow of the room that a player is in; what is written
    /// through it is what the manager holds afterwards.
    pub fn get_player_room_mut(&mut self, player_id: PlayerId) -> (room: Option<&mut Room>)
        requires
            old(self).wf(),
        ensures
            final(self).wf(),
            match room {
                Some(r) => {
                    let code = old(self)@.player_room[player_id];
                    &&& old(self)@.player_room.contains_key(player_id)
                    &&& old(self)@.rooms.contains_key(code)
                    &&& r@ == old(self)@.rooms[code]
                    &&& final(self)@ == (ManagerView {
                        rooms: old(self)@.rooms.insert(code, final(r)@),
                        ..old(self)@
                    })
                },
                None => {
                    &&& final(self)@ == old(self)@
                    &&& !old(self)@.player_room.contains_key(player_id) || !old(
                        self,
                    )@.rooms.contains_key(old(self)@.player_room[player_id])
                },
            },
    {
        broadcast use vstd::std_specs::hash::group_hash_axioms;

        let ghost before = self.rooms@;
        let code: String = match self.player_room.get(&player_id) {
            Some(code) => code.clone(),
            None => {
                return None;
            },
        };
        proof {
            assert forall|changed: Room| #[trigger]
                room_views(before.insert(code@, changed)) == room_views(before).insert(
                    code@,
                    changed@,
                ) by {
                lemma_room_views(before, code@, changed);
            }
        }
        self.rooms.get_mut(code.as_str())
    }

    /// Opens a room with the code `code`, which no room may have yet.
    pub fn create_room(&mut self, code: String) -> (room: &Room)
        requires
            old(self).wf(),
            !old(self)@.rooms.contains_key(code@),
        ensures
            final(self).wf(),
            final(self)@ == old(self)@.opened(code@),
            final(self)@.rooms.contains_key(code@),
            room@ == RoomView::fresh(code@, old(self)@.max_players_per_room),
    {
        let ghost before = self.rooms@;
        let room = Room::new(code.clone(), self.max_players_per_room);
        proof {
            lemma_room_views(before, code@, room);
        }
        self.rooms.insert(code.clone(), room);
        match self.rooms.get(code.as_str()) {
            Some(room) => room,
            None => vstd::pervasive::unreached(),
        }
    }

    /// Takes a player out of the room it is in and returns the code of
    /// that room. A room left empty is closed.
    pub fn leave_room(&mut self, player_id: PlayerId) -> (left: Option<String>)
        requires
            old(self).wf(),
        ensures
            final(self).wf(),
            final(self)@ == old(self)@.left(player_id),
            match left {
                Some(code) => old(self)@.player_room.contains_key(player_id) && code@ == old(
                    self,
                )@.player_room[player_id],
                None => !old(self)@.player_room.contains_key(player_id),
            },
    {
        broadcast use vstd::std_specs::hash::group_hash_axioms;

        let ghost before = self.rooms@;
        let code = match self.player_room.remove(&player_id) {
            Some(code) => code,
            None => {
                proof {
                    assert(self@.player_room =~= old(self)@.player_room);
                }
                return None;
            },
        };
        proof {
            assert(self@.player_room =~= old(self)@.player_room.remove(player_id));
        }
        let emptied = match self.rooms.get_mut(code.as_str()) {
            Some(room) => {
                room.remove_player(player_id);
                proof {
                    lemma_room_views(before, code@, *room);
                }
                room.is_empty()
            },
            None => false,
        };
        if emptied {
            let ghost held = self.rooms@;
            let removed = self.rooms.remove(code.as_str());
            proof {
                match removed {
                    Some(room) => {
                        lemma_room_views(held, code@, room);
                    },
                    None => {},
                }
                assert(room_views(before).insert(code@, room_views(held)[code@]).remove(code@)
                    =~= room_views(before).remove(code@));
            }
        }
        Some(code)
    }

    /// Puts a player into a room. The player first leaves the room it is
    /// in. A request without a room code opens a room under `fresh_code`,
    /// which no room may have yet; a request for a code without a room
    /// opens that room. The room may turn the player down; the player has
    /// then left its old room all the same.
    pub fn join_room(
        &mut self,
        room_code: &str,
        player_id: PlayerId,
        player_name: String,
        fresh_code: String,
    ) -> (result: Result<&Room, RoomError>)
        requires
            old(self).wf(),
            room_code@.len() == 0 ==> !old(self)@.rooms.contains_key(fresh_code@),
        ensures
            final(self).wf(),
            final(self)@ == old(self)@.joined(room_code@, player_id, player_name@, fresh_code@),
            match result {
                Ok(room) => {
                    &&& old(self)@.join_refusal(room_code@, player_id, fresh_code@).is_none()
                    &&& room@ == final(self)@.rooms[ManagerView::join_code(
                        room_code@,
                        fresh_code@,
                    )]
                },
                Err(error) => old(self)@.join_refusal(room_code@, player_id, fresh_code@) == Some(
                    error,
                ),
            },
    {
        broadcast use vstd::std_specs::hash::group_hash_axioms;

        if self.player_room.contains_key(&player_id) {
            let _old_code = self.leave_room(player_id);
        } else {
            proof {
                assert(!self@.player_room.contains_key(player_id));
            }
        }
        let code = if room_code.is_empty() {
            fresh_code
        } else {
            room_code.to_owned()
        };
        if !self.rooms.contains_key(code.as_str()) {
            let ghost before = self.rooms@;
            let room = Room::new(code.clone(), self.max_players_per_room);
            proof {
                lemma_room_views(before, code@, room);
            }
            self.rooms.insert(code.clone(), room);
        }
        let ghost found = self@;
        let ghost held = self.rooms@;
        let outcome = match self.rooms.get_mut(code.as_str()) {
            Some(room) => {
                let outcome = room.add_player(player_id, player_name);
                proof {
                    lemma_room_views(held, code@, *room);
                }
                outcome
            },
            None => Err(RoomError::RoomNotFound),
        };
        match outcome {
            Ok(_) => {
                let ghost before_map = self@.player_room;
                self.player_room.insert(player_id, code.clone());
                proof {
                    assert(self@.player_room =~= before_map.insert(player_id, code@));
                }
                match self.rooms.get(code.as_str()) {
                    Some(room) => Ok(room),
                    None => Err(RoomError::RoomNotFound),
                }
            },
            Err(error) => {
                proof {
                    assert(found.rooms.insert(code@, found.rooms[code@]) =~= found.rooms);
                }
                Err(error)
            },
        }
    }

    /// Sets the readiness of a player in the room it is in.
    pub fn set_ready(&mut self, player_id: PlayerId, ready: bool) -> (result: Result<
        &Room,
        RoomError,
    >)
        requires
            old(self).wf(),
        ensures
            final(self).wf(),
            match result {
                Ok(room) => {
                    let code = old(self)@.player_room[player_id];
                    &&& old(self)@.ready_refusal(player_id).is_none()
                    &&& final(self)@ == (ManagerView {
                        rooms: old(self)@.rooms.insert(
                            code,
                            old(self)@.rooms[code].with_ready(player_id, ready),
                        ),
                        ..old(self)@
                    })
                    &&& room@ == final(self)@.rooms[code]
                },
                Err(error) => old(self)@.ready_refusal(player_id) == Some(error) && final(self)@
                    == old(self)@,
            },
    {
        broadcast use vstd::std_specs::hash::group_hash_axioms;

        let ghost before = self@;
        let ghost held = self.rooms@;
        let code: String = match self.player_room.get(&player_id) {
            Some(code) => code.clone(),
            None => {
                return Err(RoomError::NotInRoom);
            },
        };
        let outcome = match self.rooms.get_mut(code.as_str()) {
            Some(room) => {
                let outcome = room.set_ready(player_id, ready);
                proof {
                    lemma_room_views(held, code@, *room);
                }
                outcome
            },
            None => {
                return Err(RoomError::RoomNotFound);
            },
        };
        match outcome {
            Ok(_) => match self.rooms.get(code.as_str()) {
                Some(room) => Ok(room),
                None => Err(RoomError::RoomNotFound),
            },
            Err(error) => {
                proof {
                    assert(before.rooms.insert(code@, before.rooms[code@]) =~= before.rooms);
                }
                Err(error)
            },
        }
    }
}

} // verus!
