use vstd::prelude::*;
use std::collections::HashMap;
use crate::game::PlayerId;
use crate::text_map::place_of;
use crate::text_map::TextMap;

verus! {

/// Whether a player is reachable at the moment.
#[derive(Debug, Clone, Copy, PartialEq, Eq, Structural)]
pub enum ConnectionState {
    Connected,
    Disconnected,
}

/// Why a player may not take up its session again.
#[derive(Debug, Clone, Copy, PartialEq, Eq, Structural)]
pub enum ReconnectRefusal {
    /// The session is still connected.
    NotDisconnected,
    /// The player stayed away longer than the grace period.
    GraceExpired,
}

/// A session has timed out once it has been idle for longer than the
/// timeout. Times are in nanoseconds.
pub open spec fn spec_is_timed_out(idle: u128, timeout: u128) -> bool {
    idle > timeout
}

/// Why a session cannot be taken up again, if it cannot: it has to be
/// disconnected, and for no longer than the grace period. `away` is the
/// time since the disconnect, where one was recorded.
pub open spec fn spec_reconnect_refusal(
    state: ConnectionState,
    away: Option<u128>,
    grace: u128,
) -> Option<ReconnectRefusal> {
    if state != ConnectionState::Disconnected {
        Some(ReconnectRefusal::NotDisconnected)
    } else if away.is_some() && away.unwrap() > grace {
        Some(ReconnectRefusal::GraceExpired)
    } else {
        None
    }
}

/// A disconnected session is given up once the player has been away for
/// longer than the grace period.
pub open spec fn spec_is_grace_expired(state: ConnectionState, away: Option<u128>, grace: u128) -> bool {
    state == ConnectionState::Disconnected && away.is_some() && away.unwrap() > grace
}

pub fn is_timed_out(idle: u128, timeout: u128) -> (timed_out: bool)
    ensures
        timed_out == spec_is_timed_out(idle, timeout),
{
    idle > timeout
}

pub fn reconnect_refusal(state: ConnectionState, away: Option<u128>, grace: u128) -> (refusal: Option<
    ReconnectRefusal,
>)
    ensures
        refusal == spec_reconnect_refusal(state, away, grace),
{
    if state != ConnectionState::Disconnected {
        return Some(ReconnectRefusal::NotDisconnected);
    }
    match away {
        Some(time) => {
            if time > grace {
                Some(ReconnectRefusal::GraceExpired)
            } else {
                None
            }
        },
        None => None,
    }
}

pub fn is_grace_expired(state: ConnectionState, away: Option<u128>, grace: u128) -> (expired: bool)
    ensures
        expired == spec_is_grace_expired(state, away, grace),
{
    match away {
        Some(time) => state == ConnectionState::Disconnected && time > grace,
        None => false,
    }
}

/// A session can be taken up again exactly as long as it is disconnected
/// and not given up.
pub proof fn law_reconnect_within_grace(state: ConnectionState, away: Option<u128>, grace: u128)
    ensures
        spec_reconnect_refusal(state, away, grace).is_none() <==> (state
            == ConnectionState::Disconnected && !spec_is_grace_expired(state, away, grace)),
{
}

/// The hexadecimal digits.
pub open spec fn hex_symbols() -> Seq<char> {
    "0123456789abcdef"@
}

/// A number in lower-case hexadecimal, without leading zeros.
pub open spec fn hex_text(n: u128) -> Seq<char>
    decreases n,
{
    if n < 16 {
        seq![hex_symbols()[n as int]]
    } else {
        hex_text(n / 16).push(hex_symbols()[(n % 16) as int])
    }
}

/// The factor that spreads a timestamp over the second half of a token.
pub const TOKEN_FACTOR: u128 = 6364136223846793005;

/// The reconnect token of a timestamp: the timestamp in hexadecimal,
/// followed by its product with a fixed factor, cut to 128 bits, in
/// hexadecimal.
pub open spec fn spec_reconnect_token(timestamp: u128) -> Seq<char> {
    hex_text(timestamp) + hex_text(timestamp.wrapping_mul(TOKEN_FACTOR))
}

/// Appends `n` in hexadecimal to `text`.
fn push_hex(text: &mut String, n: u128)
    ensures
        final(text)@ == old(text)@ + hex_text(n),
{
    let symbols = "0123456789abcdef";
    proof {
        reveal_strlit("0123456789abcdef");
    }
    let mut digits: Vec<usize> = Vec::new();
    let mut rest: u128 = n;
    while rest >= 16
        invariant
            forall|k: int| 0 <= k < digits@.len() ==> digits@[k] < 16,
            hex_text(n) == hex_text(rest) + Seq::new(
                digits@.len(),
                |j: int| hex_symbols()[digits@[digits@.len() - 1 - j] as int],
            ),
        decreases rest,
    {
        let ghost before = digits@;
        let ghost tail = Seq::new(
            before.len(),
            |j: int| hex_symbols()[before[before.len() - 1 - j] as int],
        );
        digits.push((rest % 16) as usize);
        proof {
            let now = Seq::new(
                digits@.len(),
                |j: int| hex_symbols()[digits@[digits@.len() - 1 - j] as int],
            );
            assert(now =~= seq![hex_symbols()[(rest % 16) as int]] + tail);
            assert(hex_text(rest / 16).push(hex_symbols()[(rest % 16) as int]) + tail
                =~= hex_text(rest / 16) + now);
        }
        rest = rest / 16;
    }
    let ghost start = text@;
    let first: usize = rest as usize;
    let top = symbols.substring_ascii(first, first + 1);
    text.append(top);
    proof {
        assert(top@ =~= seq![symbols@[first as int]]);
    }
    let ghost tail = Seq::new(
        digits@.len(),
        |j: int| hex_symbols()[digits@[digits@.len() - 1 - j] as int],
    );
    let mut k: usize = digits.len();
    while k > 0
        invariant
            k <= digits@.len(),
            symbols@ == hex_symbols(),
            symbols@.len() == 16,
            symbols.is_ascii(),
            forall|j: int| 0 <= j < digits@.len() ==> digits@[j] < 16,
            tail == Seq::new(
                digits@.len(),
                |j: int| hex_symbols()[digits@[digits@.len() - 1 - j] as int],
            ),
            text@ == start + hex_text(rest) + tail.take(digits@.len() - k),
        decreases k,
    {
        k -= 1;
        let digit = digits[k];
        let ghost before = text@;
        let symbol = symbols.substring_ascii(digit, digit + 1);
        text.append(symbol);
        proof {
            assert(symbol@ =~= seq![symbols@[digit as int]]);
            assert(tail.take(digits@.len() - k) =~= tail.take(digits@.len() - k - 1).push(
                symbols@[digit as int],
            ));
            assert(text@ =~= start + hex_text(rest) + tail.take(digits@.len() - k));
        }
    }
    proof {
        assert(tail.take(digits@.len() as int) =~= tail);
        assert(start + hex_text(rest) + tail =~= start + (hex_text(rest) + tail));
    }
}

/// The reconnect token of a timestamp. It can be guessed by whoever knows
/// the time: it keeps honest clients apart and is no secret.
pub fn reconnect_token_from(timestamp: u128) -> (token: String)
    ensures
        token@ == spec_reconnect_token(timestamp),
{
    let mut token = String::new();
    push_hex(&mut token, timestamp);
    push_hex(&mut token, timestamp.wrapping_mul(TOKEN_FACTOR));
    proof {
        assert(token@ =~= spec_reconnect_token(timestamp));
    }
    token
}

/// Nanoseconds in a second.
pub const NANOS_PER_SECOND: u128 = 1_000_000_000;

/// The time from `then` to `now`; none where `then` is still to come.
pub open spec fn spec_elapsed(now: u128, then: u128) -> u128 {
    if now >= then {
        (now - then) as u128
    } else {
        0
    }
}

/// The time from `then` to `now`; none where `then` is still to come.
pub fn elapsed(now: u128, then: u128) -> (time: u128)
    ensures
        time == spec_elapsed(now, then),
{
    if now >= then {
        now - then
    } else {
        0
    }
}

/// One player's connection: who it is, where it can be reached, and when it
/// was last heard of. Addresses are kept as text, times as nanoseconds on
/// the clock of the caller.
#[derive(Debug, Clone)]
pub struct Session {
    pub player_id: PlayerId,
    pub player_name: String,
    pub addr: String,
    pub room_code: Option<String>,
    pub last_seen: u128,
    pub last_ping: Option<u128>,
    pub latency_ms: Option<u32>,
    pub ping_count: u32,
    pub connection_state: ConnectionState,
    pub reconnect_token: String,
    pub disconnected_at: Option<u128>,
}

/// The mathematical content of a [`Session`].
pub struct SessionView {
    pub player_id: PlayerId,
    pub player_name: Seq<char>,
    pub addr: Seq<char>,
    pub room_code: Option<Seq<char>>,
    pub last_seen: u128,
    pub last_ping: Option<u128>,
    pub latency_ms: Option<u32>,
    pub ping_count: u32,
    pub connection_state: ConnectionState,
    pub reconnect_token: Seq<char>,
    pub disconnected_at: Option<u128>,
}

impl View for Session {
    type V = SessionView;

    open spec fn view(&self) -> SessionView {
        SessionView {
            player_id: self.player_id,
            player_name: self.player_name@,
            addr: self.addr@,
            room_code: match self.room_code {
                Some(code) => Some(code@),
                None => None,
            },
            last_seen: self.last_seen,
            last_ping: self.last_ping,
            latency_ms: self.latency_ms,
            ping_count: self.ping_count,
            connection_state: self.connection_state,
            reconnect_token: self.reconnect_token@,
            disconnected_at: self.disconnected_at,
        }
    }
}

impl SessionView {
    /// The session of a player that has just registered.
    pub open spec fn fresh(
        player_id: PlayerId,
        player_name: Seq<char>,
        addr: Seq<char>,
        now: u128,
        token: Seq<char>,
    ) -> SessionView {
        SessionView {
            player_id,
            player_name,
            addr,
            room_code: None,
            last_seen: now,
            last_ping: None,
            latency_ms: None,
            ping_count: 0,
            connection_state: ConnectionState::Connected,
            reconnect_token: token,
            disconnected_at: None,
        }
    }

    /// How long the player has been away at `now`, where a disconnect was
    /// recorded.
    pub open spec fn away(self, now: u128) -> Option<u128> {
        match self.disconnected_at {
            Some(at) => Some(spec_elapsed(now, at)),
            None => None,
        }
    }

    /// Whether the session has been silent for longer than `timeout` at
    /// `now`.
    pub open spec fn is_timed_out(self, now: u128, timeout: u128) -> bool {
        spec_is_timed_out(spec_elapsed(now, self.last_seen), timeout)
    }

    /// Whether the session is given up at `now`.
    pub open spec fn is_expired(self, now: u128, grace: u128) -> bool {
        spec_is_grace_expired(self.connection_state, self.away(now), grace)
    }

    /// The session taken up again from `addr` at `now`.
    pub open spec fn resumed(self, addr: Seq<char>, player_name: Seq<char>, now: u128) -> SessionView {
        SessionView {
            addr,
            player_name,
            connection_state: ConnectionState::Connected,
            disconnected_at: None,
            last_seen: now,
            ..self
        }
    }
}

/// The mathematical content of a [`SessionManager`].
pub struct SessionsView {
    /// The sessions by the address they are kept under.
    pub sessions: Map<Seq<char>, SessionView>,
    /// The addresses in the order in which they came in.
    pub order: Seq<Seq<char>>,
    /// The address of each player.
    pub addr_by_player: Map<PlayerId, Seq<char>>,
    /// The player of each reconnect token.
    pub player_by_token: Map<Seq<char>, PlayerId>,
    /// The id that the next new player gets.
    pub next_player_id: PlayerId,
    /// Seconds of silence after which a session has timed out.
    pub timeout_seconds: u64,
    /// Seconds that a disconnected player may stay away.
    pub grace_seconds: u32,
}

impl SessionsView {
    /// The timeout in nanoseconds.
    pub open spec fn timeout(self) -> u128 {
        (self.timeout_seconds * NANOS_PER_SECOND) as u128
    }

    /// The grace period in nanoseconds.
    pub open spec fn grace(self) -> u128 {
        (self.grace_seconds * NANOS_PER_SECOND) as u128
    }

    /// The sessions after a player registers from `addr`. A known address
    /// keeps its session, which takes the name and counts as seen. A new
    /// address gets a session for a new player, who can be found by its id
    /// and by `token`.
    pub open spec fn registered(
        self,
        addr: Seq<char>,
        player_name: Seq<char>,
        now: u128,
        token: Seq<char>,
    ) -> SessionsView {
        if self.sessions.contains_key(addr) {
            SessionsView {
                sessions: self.sessions.insert(
                    addr,
                    SessionView { last_seen: now, player_name, ..self.sessions[addr] },
                ),
                ..self
            }
        } else {
            SessionsView {
                sessions: self.sessions.insert(
                    addr,
                    SessionView::fresh(self.next_player_id, player_name, addr, now, token),
                ),
                order: self.order.push(addr),
                addr_by_player: self.addr_by_player.insert(self.next_player_id, addr),
                player_by_token: self.player_by_token.insert(token, self.next_player_id),
                next_player_id: (self.next_player_id + 1) as PlayerId,
                ..self
            }
        }
    }

    /// The sessions after the session under `addr` is taken out, with what
    /// leads to it by player and by token.
    pub open spec fn removed(self, addr: Seq<char>) -> SessionsView {
        if !self.sessions.contains_key(addr) {
            self
        } else {
            SessionsView {
                sessions: self.sessions.remove(addr),
                order: self.order.remove(place_of(self.order, addr)),
                addr_by_player: self.addr_by_player.remove(self.sessions[addr].player_id),
                player_by_token: self.player_by_token.remove(
                    self.sessions[addr].reconnect_token,
                ),
                ..self
            }
        }
    }

    /// The sessions after the sessions under `addrs` are taken out in turn.
    pub open spec fn swept(self, addrs: Seq<Seq<char>>) -> SessionsView
        decreases addrs.len(),
    {
        if addrs.len() == 0 {
            self
        } else {
            self.swept(addrs.drop_last()).removed(addrs.last())
        }
    }

    /// The session that `player_id` can be reached under.
    pub open spec fn session_of(self, player_id: PlayerId) -> Option<SessionView> {
        if self.addr_by_player.contains_key(player_id) && self.sessions.contains_key(
            self.addr_by_player[player_id],
        ) {
            Some(self.sessions[self.addr_by_player[player_id]])
        } else {
            None
        }
    }

    /// The session that `token` leads to, if it may be taken up again at
    /// `now`.
    pub open spec fn resumable(self, token: Seq<char>, now: u128) -> Option<SessionView> {
        if !self.player_by_token.contains_key(token) {
            None
        } else {
            match self.session_of(self.player_by_token[token]) {
                None => None,
                Some(session) => if spec_reconnect_refusal(
                    session.connection_state,
                    session.away(now),
                    self.grace(),
                ).is_some() {
                    None
                } else {
                    Some(session)
                },
            }
        }
    }

    /// The sessions after the player of `token` comes back from `addr`: its
    /// session moves there, whatever was kept under that address before.
    pub open spec fn reconnected(
        self,
        token: Seq<char>,
        addr: Seq<char>,
        player_name: Seq<char>,
        now: u128,
    ) -> SessionsView {
        match self.resumable(token, now) {
            None => self,
            Some(session) => {
                let player_id = self.player_by_token[token];
                let old_addr = self.addr_by_player[player_id];
                let moved = session.resumed(addr, player_name, now);
                let without = self.order.remove(place_of(self.order, old_addr));
                SessionsView {
                    sessions: self.sessions.remove(old_addr).insert(addr, moved),
                    order: if without.contains(addr) {
                        without
                    } else {
                        without.push(addr)
                    },
                    addr_by_player: self.addr_by_player.insert(player_id, addr),
                    ..self
                }
            },
        }
    }
}

/// The sessions of a map, each by its view.
pub open spec fn session_views(sessions: Map<Seq<char>, Session>) -> Map<Seq<char>, SessionView> {
    sessions.map_values(|s: Session| s@)
}

/// Keeps the sessions of all players: by address, by player and by
/// reconnect token.
pub struct SessionManager {
    sessions_by_addr: TextMap<Session>,
    addr_by_player_id: HashMap<PlayerId, String>,
    token_to_player_id: TextMap<PlayerId>,
    next_player_id: PlayerId,
    timeout_seconds: u64,
    grace_seconds: u32,
}

impl View for SessionManager {
    type V = SessionsView;

    closed spec fn view(&self) -> SessionsView {
        SessionsView {
            sessions: session_views(self.sessions_by_addr@),
            order: self.sessions_by_addr.keys(),
            addr_by_player: self.addr_by_player_id@.map_values(|addr: String| addr@),
            player_by_token: self.token_to_player_id@,
            next_player_id: self.next_player_id,
            timeout_seconds: self.timeout_seconds,
            grace_seconds: self.grace_seconds,
        }
    }
}

impl SessionManager {
    /// The manager is in one piece.
    pub closed spec fn wf(&self) -> bool {
        self.sessions_by_addr.wf() && self.token_to_player_id.wf()
    }

    /// The addresses in order are the addresses of the sessions.
    pub proof fn lemma_order(&self)
        requires
            self.wf(),
        ensures
            crate::text_map::distinct(self@.order),
            forall|addr: Seq<char>| self@.order.contains(addr) <==> self@.sessions.contains_key(addr),
    {
    }

    pub fn new(timeout_seconds: u64, grace_seconds: u32) -> (manager: Self)
        ensures
            manager.wf(),
            manager@ == (SessionsView {
                sessions: Map::empty(),
                order: Seq::empty(),
                addr_by_player: Map::empty(),
                player_by_token: Map::empty(),
                next_player_id: 1,
                timeout_seconds,
                grace_seconds,
            }),
    {
        let manager = Self {
            sessions_by_addr: TextMap::new(),
            addr_by_player_id: HashMap::new(),
            token_to_player_id: TextMap::new(),
            next_player_id: 1,
            timeout_seconds,
            grace_seconds,
        };
        proof {
            assert(manager@.sessions =~= Map::<Seq<char>, SessionView>::empty());
            assert(manager@.addr_by_player =~= Map::<PlayerId, Seq<char>>::empty());
        }
        manager
    }

    /// The timeout in nanoseconds.
    fn timeout(&self) -> (nanos: u128)
        ensures
            nanos == self@.timeout(),
    {
        (self.timeout_seconds as u128) * NANOS_PER_SECOND
    }

    /// The grace period in nanoseconds.
    fn grace(&self) -> (nanos: u128)
        ensures
            nanos == self@.grace(),
    {
        (self.grace_seconds as u128) * NANOS_PER_SECOND
    }

    pub fn grace_period_seconds(&self) -> (seconds: u32)
        ensures
            seconds == self@.grace_seconds,
    {
        self.grace_seconds
    }

    pub fn get_by_addr(&self, addr: &str) -> (session: Option<&Session>)
        requires
            self.wf(),
        ensures
            match session {
                Some(s) => self@.sessions.contains_key(addr@) && s@ == self@.sessions[addr@],
                None => !self@.sessions.contains_key(addr@),
            },
    {
        self.sessions_by_addr.get(addr)
    }

    /// A mutable borrow of the session under `addr`; what is written through
    /// it is what the manager holds afterwards.
    pub fn get_by_addr_mut(&mut self, addr: &str) -> (session: Option<&mut Session>)
        requires
            old(self).wf(),
        ensures
            final(self).wf(),
            match session {
                Some(s) => {
                    &&& old(self)@.sessions.contains_key(addr@)
                    &&& s@ == old(self)@.sessions[addr@]
                    &&& final(self)@ == (SessionsView {
                        sessions: old(self)@.sessions.insert(addr@, final(s)@),
                        ..old(self)@
                    })
                },
                None => !old(self)@.sessions.contains_key(addr@) && final(self)@ == old(self)@,
            },
    {
        let ghost before = self.sessions_by_addr@;
        match self.sessions_by_addr.get_mut(addr) {
            Some(session) => {
                proof {
                    assert forall|changed: Session| #[trigger]
                        session_views(before.insert(addr@, changed)) == session_views(
                            before,
                        ).insert(addr@, changed@) by {
                        assert(session_views(before.insert(addr@, changed)) =~= session_views(
                            before,
                        ).insert(addr@, changed@));
                    }
                }
                Some(session)
            },
            None => None,
        }
    }

    pub fn get_by_player_id(&self, player_id: PlayerId) -> (session: Option<&Session>)
        requires
            self.wf(),
        ensures
            match session {
                Some(s) => self@.session_of(player_id) == Some(s@),
                None => self@.session_of(player_id).is_none(),
            },
    {
        broadcast use vstd::std_specs::hash::group_hash_axioms;

        match self.addr_by_player_id.get(&player_id) {
            Some(addr) => self.sessions_by_addr.get(addr.as_str()),
            None => None,
        }
    }

    /// Whether whoever speaks from `addr` can be registered: the address is
    /// known, or there is a player id left to give out.
    pub fn can_register(&self, addr: &str) -> (possible: bool)
        ensures
            possible == (self@.sessions.contains_key(addr@) || self@.next_player_id < u32::MAX),
    {
        self.sessions_by_addr.contains_key(addr) || self.next_player_id < u32::MAX
    }

    /// Whether `token` is the reconnect token of a player.
    pub fn has_token(&self, token: &str) -> (known: bool)
        ensures
            known == self@.player_by_token.contains_key(token@),
    {
        self.token_to_player_id.contains_key(token)
    }
}

/// Viewing the sessions goes along with putting one in and taking one
/// out.
pub proof fn lemma_session_views(sessions: Map<Seq<char>, Session>, addr: Seq<char>, session: Session)
    ensures
        session_views(sessions.insert(addr, session)) == session_views(sessions).insert(
            addr,
            session@,
        ),
        session_views(sessions.remove(addr)) == session_views(sessions).remove(addr),
{
    assert(session_views(sessions.insert(addr, session)) =~= session_views(sessions).insert(
        addr,
        session@,
    ));
    assert(session_views(sessions.remove(addr)) =~= session_views(sessions).remove(addr));
}

impl SessionManager {
    /// Registers whoever speaks from `addr`. A known address keeps its
    /// session; a new one gets a session for a new player, with `token` to
    /// come back by.
    pub fn register(&mut self, addr: &str, player_name: String, now: u128, token: String) -> (session:
        &Session)
        requires
            old(self).wf(),
            !old(self)@.sessions.contains_key(addr@) ==> old(self)@.next_player_id < u32::MAX,
        ensures
            final(self).wf(),
            final(self)@ == old(self)@.registered(addr@, player_name@, now, token@),
            final(self)@.sessions.contains_key(addr@),
            session@ == final(self)@.sessions[addr@],
    {
        broadcast use vstd::std_specs::hash::group_hash_axioms;

        let ghost before = self.sessions_by_addr@;
        let ghost known = self.sessions_by_addr@.contains_key(addr@);
        if self.sessions_by_addr.contains_key(addr) {
            match self.sessions_by_addr.get_mut(addr) {
                Some(session) => {
                    session.last_seen = now;
                    session.player_name = player_name;
                    proof {
                        lemma_session_views(before, addr@, *session);
                    }
                },
                None => {},
            }
        } else {
            let player_id = self.next_player_id;
            self.next_player_id += 1;
            let session = Session {
                player_id,
                player_name,
                addr: addr.to_owned(),
                room_code: None,
                last_seen: now,
                last_ping: None,
                latency_ms: None,
                ping_count: 0,
                connection_state: ConnectionState::Connected,
                reconnect_token: token.clone(),
                disconnected_at: None,
            };
            proof {
                lemma_session_views(before, addr@, session);
            }
            let ghost by_player = self@.addr_by_player;
            self.sessions_by_addr.insert(addr.to_owned(), session);
            self.addr_by_player_id.insert(player_id, addr.to_owned());
            self.token_to_player_id.insert(token, player_id);
            proof {
                assert(self@.addr_by_player =~= by_player.insert(player_id, addr@));
            }
        }
        match self.sessions_by_addr.get(addr) {
            Some(session) => session,
            None => vstd::pervasive::unreached(),
        }
    }

    /// Notes a ping from `addr`: the session counts it and counts as seen.
    pub fn ping(&mut self, addr: &str, now: u128)
        requires
            old(self).wf(),
            old(self)@.sessions.contains_key(addr@) ==> old(self)@.sessions[addr@].ping_count
                < u32::MAX,
        ensures
            final(self).wf(),
            final(self)@ == (if old(self)@.sessions.contains_key(addr@) {
                SessionsView {
                    sessions: old(self)@.sessions.insert(
                        addr@,
                        SessionView {
                            last_ping: Some(now),
                            last_seen: now,
                            ping_count: (old(self)@.sessions[addr@].ping_count + 1) as u32,
                            ..old(self)@.sessions[addr@]
                        },
                    ),
                    ..old(self)@
                }
            } else {
                old(self)@
            }),
    {
        let ghost before = self.sessions_by_addr@;
        match self.sessions_by_addr.get_mut(addr) {
            Some(session) => {
                session.last_ping = Some(now);
                session.last_seen = now;
                session.ping_count += 1;
                proof {
                    lemma_session_views(before, addr@, *session);
                }
            },
            None => {},
        }
    }

    /// Notes that `addr` was heard of.
    pub fn update_last_seen(&mut self, addr: &str, now: u128)
        requires
            old(self).wf(),
        ensures
            final(self).wf(),
            final(self)@ == (if old(self)@.sessions.contains_key(addr@) {
                SessionsView {
                    sessions: old(self)@.sessions.insert(
                        addr@,
                        SessionView { last_seen: now, ..old(self)@.sessions[addr@] },
                    ),
                    ..old(self)@
                }
            } else {
                old(self)@
            }),
    {
        let ghost before = self.sessions_by_addr@;
        match self.sessions_by_addr.get_mut(addr) {
            Some(session) => {
                session.last_seen = now;
                proof {
                    lemma_session_views(before, addr@, *session);
                }
            },
            None => {},
        }
    }

    /// Marks the session under `addr` as disconnected since `now` and
    /// returns its player.
    pub fn mark_player_disconnected(&mut self, addr: &str, now: u128) -> (player: Option<PlayerId>)
        requires
            old(self).wf(),
        ensures
            final(self).wf(),
            final(self)@ == (if old(self)@.sessions.contains_key(addr@) {
                SessionsView {
                    sessions: old(self)@.sessions.insert(
                        addr@,
                        SessionView {
                            connection_state: ConnectionState::Disconnected,
                            disconnected_at: Some(now),
                            ..old(self)@.sessions[addr@]
                        },
                    ),
                    ..old(self)@
                }
            } else {
                old(self)@
            }),
            player == (if old(self)@.sessions.contains_key(addr@) {
                Some(old(self)@.sessions[addr@].player_id)
            } else {
                None
            }),
    {
        let ghost before = self.sessions_by_addr@;
        match self.sessions_by_addr.get_mut(addr) {
            Some(session) => {
                session.connection_state = ConnectionState::Disconnected;
                session.disconnected_at = Some(now);
                proof {
                    lemma_session_views(before, addr@, *session);
                }
                Some(session.player_id)
            },
            None => None,
        }
    }

    /// Takes out the session under `addr`, with what leads to it by player
    /// and by token, and hands it back.
    pub fn remove(&mut self, addr: &str) -> (removed: Option<Session>)
        requires
            old(self).wf(),
        ensures
            final(self).wf(),
            final(self)@ == old(self)@.removed(addr@),
            match removed {
                Some(session) => old(self)@.sessions.contains_key(addr@) && session@ == old(
                    self,
                )@.sessions[addr@],
                None => !old(self)@.sessions.contains_key(addr@),
            },
    {
        broadcast use vstd::std_specs::hash::group_hash_axioms;

        let ghost before = self.sessions_by_addr@;
        let ghost by_player = self@.addr_by_player;
        match self.sessions_by_addr.remove(addr) {
            Some(session) => {
                proof {
                    lemma_session_views(before, addr@, session);
                }
                self.addr_by_player_id.remove(&session.player_id);
                self.token_to_player_id.remove(session.reconnect_token.as_str());
                proof {
                    assert(self@.addr_by_player =~= by_player.remove(session.player_id));
                }
                Some(session)
            },
            None => None,
        }
    }
}

/// A filter keeps the texts that pass it, each once if each came once.
pub proof fn lemma_filter_distinct(keys: Seq<Seq<char>>, pred: spec_fn(Seq<char>) -> bool)
    requires
        crate::text_map::distinct(keys),
    ensures
        crate::text_map::distinct(keys.filter(pred)),
        forall|key: Seq<char>|
            #![trigger keys.filter(pred).contains(key)]
            keys.filter(pred).contains(key) <==> (keys.contains(key) && pred(key)),
    decreases keys.len(),
{
    let kept = keys.filter(pred);
    if keys.len() == 0 {
        assert(kept =~= keys) by {
            reveal(Seq::filter);
        }
        assert forall|key: Seq<char>| !keys.contains(key) by {
            if keys.contains(key) {
                let k = choose|k: int| 0 <= k < keys.len() && keys[k] == key;
            }
        }
    } else {
        let front = keys.drop_last();
        let last = keys.last();
        assert(keys =~= front.push(last));
        front.lemma_filter_push(last, pred);
        assert forall|i: int, j: int|
            0 <= i < front.len() && 0 <= j < front.len() && i != j implies #[trigger] front[i]
            != #[trigger] front[j] by {
            assert(front[i] == keys[i]);
            assert(front[j] == keys[j]);
        }
        lemma_filter_distinct(front, pred);
        let rest = front.filter(pred);
        assert(!front.contains(last)) by {
            if front.contains(last) {
                let k = choose|k: int| 0 <= k < front.len() && front[k] == last;
                assert(keys[k] == keys[keys.len() - 1]);
            }
        }
        assert forall|key: Seq<char>|
            #![trigger kept.contains(key)]
            kept.contains(key) <==> (keys.contains(key) && pred(key)) by {
            if kept.contains(key) {
                let k = choose|k: int| 0 <= k < kept.len() && kept[k] == key;
                if k < rest.len() {
                    assert(rest[k] == key);
                    assert(rest.contains(key));
                    let j = choose|j: int| 0 <= j < front.len() && front[j] == key;
                    assert(keys[j] == key);
                } else {
                    assert(keys[keys.len() - 1] == key);
                }
            }
            if keys.contains(key) && pred(key) {
                let k = choose|k: int| 0 <= k < keys.len() && keys[k] == key;
                if k < front.len() {
                    assert(front[k] == key);
                    assert(front.contains(key));
                    assert(rest.contains(key));
                    let j = choose|j: int| 0 <= j < rest.len() && rest[j] == key;
                    assert(kept[j] == key);
                } else {
                    assert(kept[rest.len() as int] == key);
                }
            }
        }
        assert forall|i: int, j: int|
            0 <= i < kept.len() && 0 <= j < kept.len() && i != j implies #[trigger] kept[i]
            != #[trigger] kept[j] by {
            if i < rest.len() && j < rest.len() {
                assert(kept[i] == rest[i]);
                assert(kept[j] == rest[j]);
            } else if i < rest.len() {
                assert(rest.contains(rest[i]));
            } else if j < rest.len() {
                assert(rest.contains(rest[j]));
            }
        }
    }
}

impl SessionsView {
    /// Whether the session under an address has timed out at `now`.
    pub open spec fn timed_out_at(self, now: u128) -> spec_fn(Seq<char>) -> bool {
        |addr: Seq<char>| self.sessions[addr].is_timed_out(now, self.timeout())
    }

    /// Whether the session under an address is given up at `now`.
    pub open spec fn expired_at(self, now: u128) -> spec_fn(Seq<char>) -> bool {
        |addr: Seq<char>| self.sessions[addr].is_expired(now, self.grace())
    }

    /// The addresses of the sessions that have timed out at `now`, in the
    /// order in which they came in.
    pub open spec fn timed_out_addrs(self, now: u128) -> Seq<Seq<char>> {
        self.order.filter(self.timed_out_at(now))
    }

    /// The addresses of the sessions that are given up at `now`, in the
    /// order in which they came in.
    pub open spec fn expired_addrs(self, now: u128) -> Seq<Seq<char>> {
        self.order.filter(self.expired_at(now))
    }
}

/// Taking out sessions leaves the other sessions as they are.
pub proof fn lemma_swept_keeps(s: SessionsView, addrs: Seq<Seq<char>>, addr: Seq<char>)
    requires
        !addrs.contains(addr),
    ensures
        s.swept(addrs).sessions.contains_key(addr) == s.sessions.contains_key(addr),
        s.sessions.contains_key(addr) ==> s.swept(addrs).sessions[addr] == s.sessions[addr],
    decreases addrs.len(),
{
    if addrs.len() > 0 {
        let front = addrs.drop_last();
        assert(addrs[addrs.len() - 1] != addr);
        if front.contains(addr) {
            let k = choose|k: int| 0 <= k < front.len() && front[k] == addr;
            assert(addrs[k] == addr);
        }
        lemma_swept_keeps(s, front, addr);
    }
}

impl SessionManager {
    /// The addresses of the sessions that have timed out, or of those that
    /// are given up, in the order in which they came in.
    fn doomed(&self, now: u128, given_up: bool) -> (addrs: Vec<String>)
        requires
            self.wf(),
        ensures
            addrs@.map_values(|addr: String| addr@) == (if given_up {
                self@.expired_addrs(now)
            } else {
                self@.timed_out_addrs(now)
            }),
    {
        let ghost pred = if given_up {
            self@.expired_at(now)
        } else {
            self@.timed_out_at(now)
        };
        let ghost order = self@.order;
        let timeout = self.timeout();
        let grace = self.grace();
        let mut addrs: Vec<String> = Vec::new();
        let mut i: usize = 0;
        while i < self.sessions_by_addr.len()
            invariant
                self.wf(),
                i <= order.len(),
                order == self@.order,
                order == self.sessions_by_addr.keys(),
                timeout == self@.timeout(),
                grace == self@.grace(),
                pred == (if given_up {
                    self@.expired_at(now)
                } else {
                    self@.timed_out_at(now)
                }),
                addrs@.map_values(|addr: String| addr@) == order.take(i as int).filter(pred),
            decreases order.len() - i,
        {
            let session = self.sessions_by_addr.value_at(i);
            let addr = self.sessions_by_addr.key_at(i);
            proof {
                crate::text_map::lemma_as_map_at(
                    self.sessions_by_addr.keys(),
                    self.sessions_by_addr.values(),
                    i as int,
                );
                assert(self@.sessions[addr@] == session@);
                assert(order.take(i + 1) =~= order.take(i as int).push(addr@));
                order.take(i as int).lemma_filter_push(addr@, pred);
            }
            let hit = if given_up {
                let away = match session.disconnected_at {
                    Some(at) => Some(elapsed(now, at)),
                    None => None,
                };
                is_grace_expired(session.connection_state, away, grace)
            } else {
                is_timed_out(elapsed(now, session.last_seen), timeout)
            };
            if hit {
                let ghost before = addrs@.map_values(|addr: String| addr@);
                addrs.push(addr.clone());
                proof {
                    assert(addrs@.map_values(|addr: String| addr@) =~= before.push(addr@));
                }
            }
            i += 1;
        }
        proof {
            assert(order.take(i as int) =~= order);
        }
        addrs
    }

    /// Takes out the sessions under `addrs` and hands them back.
    fn sweep(&mut self, addrs: Vec<String>) -> (removed: Vec<Session>)
        requires
            old(self).wf(),
            crate::text_map::distinct(addrs@.map_values(|addr: String| addr@)),
            forall|k: int|
                0 <= k < addrs@.len() ==> old(self)@.sessions.contains_key(
                    (#[trigger] addrs@[k])@,
                ),
        ensures
            final(self).wf(),
            final(self)@ == old(self)@.swept(addrs@.map_values(|addr: String| addr@)),
            removed@.len() == addrs@.len(),
            forall|k: int|
                0 <= k < removed@.len() ==> (#[trigger] removed@[k])@ == old(self)@.sessions[addrs@[k]@],
    {
        let ghost start = self@;
        let ghost texts = addrs@.map_values(|addr: String| addr@);
        let mut removed: Vec<Session> = Vec::new();
        let mut i: usize = 0;
        proof {
            assert(texts.take(0) =~= Seq::<Seq<char>>::empty());
        }
        while i < addrs.len()
            invariant
                i <= addrs@.len(),
                self.wf(),
                texts == addrs@.map_values(|addr: String| addr@),
                crate::text_map::distinct(texts),
                forall|k: int|
                    0 <= k < addrs@.len() ==> start.sessions.contains_key((#[trigger] addrs@[k])@),
                self@ == start.swept(texts.take(i as int)),
                removed@.len() == i,
                forall|k: int|
                    0 <= k < i ==> (#[trigger] removed@[k])@ == start.sessions[addrs@[k]@],
            decreases addrs@.len() - i,
        {
            proof {
                assert(texts.take(i + 1).drop_last() =~= texts.take(i as int));
                assert(texts.take(i + 1).last() == addrs@[i as int]@);
                assert(!texts.take(i as int).contains(texts[i as int])) by {
                    if texts.take(i as int).contains(texts[i as int]) {
                        let k = choose|k: int|
                            0 <= k < i && texts.take(i as int)[k] == texts[i as int];
                        assert(texts[k] == texts[i as int]);
                    }
                }
                lemma_swept_keeps(start, texts.take(i as int), texts[i as int]);
            }
            match self.remove(addrs[i].as_str()) {
                Some(session) => {
                    removed.push(session);
                },
                None => {},
            }
            i += 1;
        }
        proof {
            assert(texts.take(i as int) =~= texts);
        }
        removed
    }

    /// Takes out every session that has been silent for longer than the
    /// timeout at `now`, and hands them back in the order in which they came
    /// in.
    pub fn cleanup_timed_out(&mut self, now: u128) -> (removed: Vec<Session>)
        requires
            old(self).wf(),
        ensures
            final(self).wf(),
            final(self)@ == old(self)@.swept(old(self)@.timed_out_addrs(now)),
            removed@.len() == old(self)@.timed_out_addrs(now).len(),
            forall|k: int|
                0 <= k < removed@.len() ==> (#[trigger] removed@[k])@ == old(self)@.sessions[old(
                    self,
                )@.timed_out_addrs(now)[k]],
    {
        let addrs = self.doomed(now, false);
        proof {
            self.lemma_order();
            lemma_filter_distinct(self@.order, self@.timed_out_at(now));
            let texts = addrs@.map_values(|addr: String| addr@);
            assert forall|k: int| 0 <= k < addrs@.len() implies self@.sessions.contains_key(
                (#[trigger] addrs@[k])@,
            ) by {
                assert(texts[k] == addrs@[k]@);
                assert(texts.contains(texts[k]));
            }
        }
        self.sweep(addrs)
    }

    /// Takes out every disconnected session whose player has been away for
    /// longer than the grace period at `now`, and hands them back in the
    /// order in which they came in.
    pub fn cleanup_expired_disconnected(&mut self, now: u128) -> (removed: Vec<Session>)
        requires
            old(self).wf(),
        ensures
            final(self).wf(),
            final(self)@ == old(self)@.swept(old(self)@.expired_addrs(now)),
            removed@.len() == old(self)@.expired_addrs(now).len(),
            forall|k: int|
                0 <= k < removed@.len() ==> (#[trigger] removed@[k])@ == old(self)@.sessions[old(
                    self,
                )@.expired_addrs(now)[k]],
    {
        let addrs = self.doomed(now, true);
        proof {
            self.lemma_order();
            lemma_filter_distinct(self@.order, self@.expired_at(now));
            let texts = addrs@.map_values(|addr: String| addr@);
            assert forall|k: int| 0 <= k < addrs@.len() implies self@.sessions.contains_key(
                (#[trigger] addrs@[k])@,
            ) by {
                assert(texts[k] == addrs@[k]@);
                assert(texts.contains(texts[k]));
            }
        }
        self.sweep(addrs)
    }

    /// Lets the player of `token` take up its session from `new_addr`. The
    /// session has to be disconnected, and for no longer than the grace
    /// period; it then moves to the new address, whatever was kept there.
    pub fn reconnected_by_token(
        &mut self,
        token: &str,
        new_addr: &str,
        player_name: String,
        now: u128,
    ) -> (session: Option<&Session>)
        requires
            old(self).wf(),
        ensures
            final(self).wf(),
            final(self)@ == old(self)@.reconnected(token@, new_addr@, player_name@, now),
            match session {
                Some(s) => {
                    &&& old(self)@.resumable(token@, now).is_some()
                    &&& final(self)@.sessions.contains_key(new_addr@)
                    &&& s@ == final(self)@.sessions[new_addr@]
                },
                None => old(self)@.resumable(token@, now).is_none(),
            },
    {
        broadcast use vstd::std_specs::hash::group_hash_axioms;

        let ghost before = self@;
        let player_id = match self.token_to_player_id.get(token) {
            Some(id) => *id,
            None => {
                return None;
            },
        };
        let old_addr: String = match self.addr_by_player_id.get(&player_id) {
            Some(addr) => addr.clone(),
            None => {
                return None;
            },
        };
        let grace = self.grace();
        match self.sessions_by_addr.get(old_addr.as_str()) {
            Some(session) => {
                let away = match session.disconnected_at {
                    Some(at) => Some(elapsed(now, at)),
                    None => None,
                };
                if reconnect_refusal(session.connection_state, away, grace).is_some() {
                    return None;
                }
            },
            None => {
                return None;
            },
        }
        let ghost held = self.sessions_by_addr@;
        let ghost by_player = self@.addr_by_player;
        match self.sessions_by_addr.remove(old_addr.as_str()) {
            Some(mut session) => {
                proof {
                    lemma_session_views(held, old_addr@, session);
                }
                session.addr = new_addr.to_owned();
                session.player_name = player_name;
                session.connection_state = ConnectionState::Connected;
                session.disconnected_at = None;
                session.last_seen = now;
                proof {
                    lemma_session_views(held.remove(old_addr@), new_addr@, session);
                }
                self.addr_by_player_id.insert(player_id, new_addr.to_owned());
                self.sessions_by_addr.insert(new_addr.to_owned(), session);
                proof {
                    assert(self@.addr_by_player =~= by_player.insert(player_id, new_addr@));
                }
            },
            None => {},
        }
        self.sessions_by_addr.get(new_addr)
    }
}

} // verus!
