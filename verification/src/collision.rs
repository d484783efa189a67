use vstd::prelude::*;
use crate::game::PlayerId;
use crate::grid::GridPos;
use crate::state::GameState;
use crate::state::StateView;

verus! {

/// Why a player was taken out of the world.
#[derive(Debug, Clone, Copy, PartialEq, Eq, Structural)]
pub enum EliminationReason {
    /// Another player crossed the player's trail.
    TrailCut,
    /// The player crossed its own trail.
    SelfCollision,
    /// The player met another player on one cell and lost.
    HeadCollision,
    /// The player ran off the grid.
    Boundary,
}

impl EliminationReason {
    /// The reason in words.
    pub open spec fn spec_text(self) -> Seq<char> {
        match self {
            EliminationReason::TrailCut => "trail was cut"@,
            EliminationReason::SelfCollision => "crossed own trail"@,
            EliminationReason::HeadCollision => "head-on collision"@,
            EliminationReason::Boundary => "hit boundary"@,
        }
    }

    /// The reason in words.
    pub fn describe(&self) -> (text: String)
        ensures
            text@ == self.spec_text(),
    {
        match self {
            EliminationReason::TrailCut => "trail was cut".to_owned(),
            EliminationReason::SelfCollision => "crossed own trail".to_owned(),
            EliminationReason::HeadCollision => "head-on collision".to_owned(),
            EliminationReason::Boundary => "hit boundary".to_owned(),
        }
    }
}

/// One player taken out of the world, and by whom.
#[derive(Debug, Clone, Copy)]
pub struct Elimination {
    /// Player who was eliminated.
    pub victim: PlayerId,
    /// Player who caused it; zero when nobody did.
    pub killer: PlayerId,
    /// What happened.
    pub reason: EliminationReason,
}

/// Whether `id` is the victim of one of `eliminations`.
pub open spec fn has_victim(eliminations: Seq<Elimination>, id: PlayerId) -> bool {
    exists|k: int| 0 <= k < eliminations.len() && (#[trigger] eliminations[k]).victim == id
}

/// A player that walked into its own trail.
pub open spec fn self_collision(id: PlayerId) -> Elimination {
    Elimination { victim: id, killer: 0, reason: EliminationReason::SelfCollision }
}

/// The owner of a trail that `killer` walked into.
pub open spec fn trail_cut(victim: PlayerId, killer: PlayerId) -> Elimination {
    Elimination { victim, killer, reason: EliminationReason::TrailCut }
}

/// The loser of a meeting on one cell; `killer` is zero where nobody won.
pub open spec fn head_collision(victim: PlayerId, killer: PlayerId) -> Elimination {
    Elimination { victim, killer, reason: EliminationReason::HeadCollision }
}

impl StateView {
    /// The last of `ids` whose trail holds `pos`.
    pub open spec fn trail_owner_among(self, ids: Seq<PlayerId>, pos: GridPos) -> Option<PlayerId>
        decreases ids.len(),
    {
        if ids.len() == 0 {
            None
        } else if self.players[ids.last()].trail.contains(pos) {
            Some(ids.last())
        } else {
            self.trail_owner_among(ids.drop_last(), pos)
        }
    }

    /// The living player whose trail occupies `pos`. Where the trails of
    /// several living players hold the cell, it counts for the one with the
    /// greatest id.
    pub open spec fn trail_owner(self, pos: GridPos) -> Option<PlayerId> {
        self.trail_owner_among(self.alive_ids(), pos)
    }

    /// What the turn of living player `id` adds to the trail collisions
    /// found so far. An invulnerable player collides with nothing. A player
    /// standing on its own trail is eliminated by itself. A player standing
    /// on the trail of another eliminates that owner, unless the owner is
    /// invulnerable or eliminated already.
    pub open spec fn trail_step(self, found: Seq<Elimination>, id: PlayerId) -> Seq<Elimination> {
        let player = self.players[id];
        if player.is_invulnerable() {
            found
        } else {
            match self.trail_owner(player.position) {
                None => found,
                Some(owner) => if owner == id {
                    found.push(self_collision(id))
                } else if !has_victim(found, owner) && !self.players[owner].is_invulnerable() {
                    found.push(trail_cut(owner, id))
                } else {
                    found
                },
            }
        }
    }

    /// The trail collisions of the players `ids`, taken in turn.
    pub open spec fn trail_pass(self, ids: Seq<PlayerId>) -> Seq<Elimination>
        decreases ids.len(),
    {
        if ids.len() == 0 {
            Seq::empty()
        } else {
            self.trail_step(self.trail_pass(ids.drop_last()), ids.last())
        }
    }

    /// Whether one of the players `ids` stands on `pos`.
    pub open spec fn stands_on(self, ids: Seq<PlayerId>, pos: GridPos) -> bool {
        exists|k: int| 0 <= k < ids.len() && self.players[#[trigger] ids[k]].position == pos
    }

    /// Whether `id` takes part in a meeting on `pos`: it stands there, can
    /// be hurt, and has not lost its trail this tick.
    pub open spec fn contends(self, cut: Seq<Elimination>, pos: GridPos) -> spec_fn(
        PlayerId,
    ) -> bool {
        |id: PlayerId|
            self.players[id].position == pos && !has_victim(cut, id)
                && !self.players[id].is_invulnerable()
    }

    /// The living players that take part in a meeting on `pos`, by
    /// ascending id.
    pub open spec fn contenders(self, cut: Seq<Elimination>, pos: GridPos) -> Seq<PlayerId> {
        self.alive_ids().filter(self.contends(cut, pos))
    }

    /// `ranked` with `id` put behind every player that scores at least as
    /// much.
    pub open spec fn rank_insert(self, ranked: Seq<PlayerId>, id: PlayerId) -> Seq<PlayerId>
        decreases ranked.len(),
    {
        if ranked.len() == 0 {
            seq![id]
        } else if self.players[ranked.last()].score >= self.players[id].score {
            ranked.push(id)
        } else {
            self.rank_insert(ranked.drop_last(), id).push(ranked.last())
        }
    }

    /// The players `ids` by falling score; equal scores stay in the order
    /// they came in.
    pub open spec fn ranked(self, ids: Seq<PlayerId>) -> Seq<PlayerId>
        decreases ids.len(),
    {
        if ids.len() == 0 {
            Seq::empty()
        } else {
            self.rank_insert(self.ranked(ids.drop_last()), ids.last())
        }
    }

    /// Whether `id` scores exactly `score`.
    pub open spec fn scores(self, score: u32) -> spec_fn(PlayerId) -> bool {
        |id: PlayerId| self.players[id].score == score
    }

    /// The outcome of a meeting on `pos`. With fewer than two contenders
    /// nothing happens. Where two or more share the top score, exactly they
    /// are eliminated, by nobody. Otherwise the top scorer survives and
    /// eliminates every other contender.
    pub open spec fn clash(self, cut: Seq<Elimination>, pos: GridPos) -> Seq<Elimination> {
        let field = self.ranked(self.contenders(cut, pos));
        if field.len() < 2 {
            Seq::empty()
        } else {
            let tied = field.filter(self.scores(self.players[field[0]].score));
            if tied.len() >= 2 {
                tied.map_values(|id: PlayerId| head_collision(id, 0))
            } else {
                field.skip(1).map_values(|id: PlayerId| head_collision(id, field[0]))
            }
        }
    }

    /// The meetings on the cells where the players `ids` stand, each cell
    /// once, at the turn of the first player on it.
    pub open spec fn head_on_pass(self, cut: Seq<Elimination>, ids: Seq<PlayerId>) -> Seq<
        Elimination,
    >
        decreases ids.len(),
    {
        if ids.len() == 0 {
            Seq::empty()
        } else {
            let pos = self.players[ids.last()].position;
            self.head_on_pass(cut, ids.drop_last()) + if self.stands_on(ids.drop_last(), pos) {
                Seq::empty()
            } else {
                self.clash(cut, pos)
            }
        }
    }

    /// Every elimination that the present positions and trails cause: the
    /// trail collisions, then the meetings on one cell. Players are taken in
    /// the order of their ids.
    pub open spec fn collisions(self) -> Seq<Elimination> {
        let cut = self.trail_pass(self.alive_ids());
        cut + self.head_on_pass(cut, self.alive_ids())
    }
}

/// Inserting at the place that the scores dictate is `rank_insert`.
proof fn lemma_rank_insert_at(s: StateView, ranked: Seq<PlayerId>, id: PlayerId, at: int)
    requires
        0 <= at <= ranked.len(),
        forall|k: int| at <= k < ranked.len() ==> s.players[#[trigger] ranked[k]].score
            < s.players[id].score,
        at > 0 ==> s.players[ranked[at - 1]].score >= s.players[id].score,
    ensures
        s.rank_insert(ranked, id) == ranked.insert(at, id),
    decreases ranked.len(),
{
    if ranked.len() == 0 {
        assert(ranked.insert(at, id) =~= seq![id]);
    } else if at == ranked.len() {
        assert(ranked.insert(at, id) =~= ranked.push(id));
    } else {
        assert(s.players[ranked[ranked.len() - 1]].score < s.players[id].score);
        lemma_rank_insert_at(s, ranked.drop_last(), id, at);
        assert(ranked.insert(at, id) =~= ranked.drop_last().insert(at, id).push(ranked.last()));
    }
}

/// Whether `pos` occurs in `trail`.
pub fn trail_contains(trail: &Vec<GridPos>, pos: &GridPos) -> (found: bool)
    ensures
        found == trail@.contains(*pos),
{
    let mut i: usize = 0;
    while i < trail.len()
        invariant
            i <= trail@.len(),
            forall|k: int| 0 <= k < i ==> trail@[k] != *pos,
        decreases trail@.len() - i,
    {
        if trail[i] == *pos {
            return true;
        }
        i += 1;
    }
    false
}

/// Whether `id` is the victim of one of the first `limit` eliminations.
fn is_victim(eliminations: &Vec<Elimination>, limit: usize, id: PlayerId) -> (found: bool)
    requires
        limit <= eliminations@.len(),
    ensures
        found == has_victim(eliminations@.take(limit as int), id),
{
    let mut i: usize = 0;
    while i < limit
        invariant
            i <= limit <= eliminations@.len(),
            forall|k: int| 0 <= k < i ==> eliminations@[k].victim != id,
        decreases limit - i,
    {
        if eliminations[i].victim == id {
            assert(eliminations@.take(limit as int)[i as int].victim == id);
            return true;
        }
        i += 1;
    }
    proof {
        let firsts = eliminations@.take(limit as int);
        if has_victim(firsts, id) {
            let k = choose|k: int| 0 <= k < firsts.len() && (#[trigger] firsts[k]).victim == id;
            assert(eliminations@[k].victim == id);
        }
    }
    false
}

/// The living player whose trail occupies `pos`, where `alive` lists the
/// living players.
fn trail_owner(state: &GameState, alive: &Vec<PlayerId>, pos: &GridPos) -> (owner: Option<PlayerId>)
    requires
        alive@ == state@.alive_ids(),
    ensures
        owner == state@.trail_owner(*pos),
{
    broadcast use vstd::std_specs::hash::group_hash_axioms;

    proof {
        state@.lemma_alive_ids();
        assert(alive@.take(alive@.len() as int) =~= alive@);
    }
    let mut i: usize = alive.len();
    while i > 0
        invariant
            i <= alive@.len(),
            alive@ == state@.alive_ids(),
            forall|k: int| 0 <= k < alive@.len() ==> state@.is_alive(#[trigger] alive@[k]),
            state@.trail_owner(*pos) == state@.trail_owner_among(alive@.take(i as int), *pos),
        decreases i,
    {
        let id = alive[i - 1];
        proof {
            assert(state@.is_alive(alive@[i - 1]));
            assert(alive@.take(i as int).drop_last() =~= alive@.take(i - 1));
            assert(alive@.take(i as int).last() == id);
        }
        match state.players.get(&id) {
            Some(player) => {
                if trail_contains(&player.trail, pos) {
                    return Some(id);
                }
            },
            None => {},
        }
        i -= 1;
    }
    proof {
        assert(alive@.take(0) =~= Seq::<PlayerId>::empty());
    }
    None
}

/// Whether one of the first `limit` players of `alive` stands on `pos`.
fn stands_before(state: &GameState, alive: &Vec<PlayerId>, limit: usize, pos: &GridPos) -> (found:
    bool)
    requires
        alive@ == state@.alive_ids(),
        limit <= alive@.len(),
    ensures
        found == state@.stands_on(alive@.take(limit as int), *pos),
{
    broadcast use vstd::std_specs::hash::group_hash_axioms;

    proof {
        state@.lemma_alive_ids();
    }
    let mut i: usize = 0;
    while i < limit
        invariant
            i <= limit <= alive@.len(),
            alive@ == state@.alive_ids(),
            forall|k: int| 0 <= k < alive@.len() ==> state@.is_alive(#[trigger] alive@[k]),
            forall|k: int| 0 <= k < i ==> state@.players[#[trigger] alive@[k]].position != *pos,
        decreases limit - i,
    {
        assert(state@.is_alive(alive@[i as int]));
        match state.players.get(&alive[i]) {
            Some(player) => {
                if player.position == *pos {
                    assert(alive@.take(limit as int)[i as int] == alive@[i as int]);
                    return true;
                }
            },
            None => {},
        }
        i += 1;
    }
    proof {
        let firsts = alive@.take(limit as int);
        if state@.stands_on(firsts, *pos) {
            let k = choose|k: int|
                0 <= k < firsts.len() && state@.players[#[trigger] firsts[k]].position == *pos;
            assert(firsts[k] == alive@[k]);
        }
    }
    false
}

/// The score of a living player.
fn score_of(state: &GameState, id: PlayerId) -> (score: u32)
    requires
        state@.players.contains_key(id),
    ensures
        score == state@.players[id].score,
{
    broadcast use vstd::std_specs::hash::group_hash_axioms;

    match state.players.get(&id) {
        Some(player) => player.score,
        None => 0,
    }
}

/// Settles the meeting on `pos` and appends its eliminations. The first
/// `cut_len` entries of `eliminations` are the trail collisions.
fn clash(
    state: &GameState,
    alive: &Vec<PlayerId>,
    pos: &GridPos,
    eliminations: &mut Vec<Elimination>,
    cut_len: usize,
)
    requires
        alive@ == state@.alive_ids(),
        cut_len <= old(eliminations)@.len(),
    ensures
        final(eliminations)@ == old(eliminations)@ + state@.clash(
            old(eliminations)@.take(cut_len as int),
            *pos,
        ),
{
    broadcast use vstd::std_specs::hash::group_hash_axioms;

    let ghost s = state@;
    let ghost base = eliminations@;
    let ghost cut = eliminations@.take(cut_len as int);
    let ghost pred = s.contends(cut, *pos);
    proof {
        s.lemma_alive_ids();
    }
    let mut field: Vec<PlayerId> = Vec::new();
    let mut i: usize = 0;
    while i < alive.len()
        invariant
            i <= alive@.len(),
            s == state@,
            alive@ == s.alive_ids(),
            eliminations@ == base,
            cut == base.take(cut_len as int),
            cut_len <= base.len(),
            pred == s.contends(cut, *pos),
            forall|k: int| 0 <= k < alive@.len() ==> s.is_alive(#[trigger] alive@[k]),
            field@ == s.ranked(alive@.take(i as int).filter(pred)),
            forall|k: int| 0 <= k < field@.len() ==> s.players.contains_key(#[trigger] field@[k]),
        decreases alive@.len() - i,
    {
        let id = alive[i];
        proof {
            assert(s.is_alive(alive@[i as int]));
            assert(alive@.take(i + 1) =~= alive@.take(i as int).push(id));
            alive@.take(i as int).lemma_filter_push(id, pred);
        }
        let takes_part = match state.players.get(&id) {
            Some(player) => player.position == *pos && !player.is_invulnerable() && !is_victim(
                eliminations,
                cut_len,
                id,
            ),
            None => false,
        };
        if takes_part {
            let score = score_of(state, id);
            let mut at: usize = field.len();
            while at > 0 && score_of(state, field[at - 1]) < score
                invariant
                    at <= field@.len(),
                    s == state@,
                    score == s.players[id].score,
                    forall|k: int|
                        0 <= k < field@.len() ==> s.players.contains_key(#[trigger] field@[k]),
                    forall|k: int|
                        at <= k < field@.len() ==> s.players[#[trigger] field@[k]].score < score,
                decreases at,
            {
                at -= 1;
            }
            proof {
                lemma_rank_insert_at(s, field@, id, at as int);
                assert(alive@.take(i + 1).filter(pred).drop_last() =~= alive@.take(
                    i as int,
                ).filter(pred));
            }
            field.insert(at, id);
        }
        i += 1;
    }
    proof {
        assert(alive@.take(i as int) =~= alive@);
    }
    if field.len() < 2 {
        proof {
            assert(base + Seq::<Elimination>::empty() =~= base);
        }
        return ;
    }
    let top = score_of(state, field[0]);
    let ghost is_top = s.scores(top);
    let mut tied: usize = 0;
    let mut k: usize = 0;
    while k < field.len()
        invariant
            k <= field@.len(),
            s == state@,
            is_top == s.scores(top),
            forall|j: int| 0 <= j < field@.len() ==> s.players.contains_key(#[trigger] field@[j]),
            tied == field@.take(k as int).filter(is_top).len(),
            tied <= k,
        decreases field@.len() - k,
    {
        proof {
            assert(field@.take(k + 1) =~= field@.take(k as int).push(field@[k as int]));
            field@.take(k as int).lemma_filter_push(field@[k as int], is_top);
        }
        if score_of(state, field[k]) == top {
            tied += 1;
        }
        k += 1;
    }
    proof {
        assert(field@.take(k as int) =~= field@);
    }
    if tied >= 2 {
        let ghost nobody = |id: PlayerId| head_collision(id, 0);
        k = 0;
        while k < field.len()
            invariant
                k <= field@.len(),
                s == state@,
                is_top == s.scores(top),
                nobody == |id: PlayerId| head_collision(id, 0),
                forall|j: int|
                    0 <= j < field@.len() ==> s.players.contains_key(#[trigger] field@[j]),
                eliminations@ == base + field@.take(k as int).filter(is_top).map_values(nobody),
            decreases field@.len() - k,
        {
            let id = field[k];
            proof {
                assert(field@.take(k + 1) =~= field@.take(k as int).push(id));
                field@.take(k as int).lemma_filter_push(id, is_top);
                field@.take(k as int).filter(is_top).lemma_push_map_commute(nobody, id);
            }
            if score_of(state, id) == top {
                eliminations.push(
                    Elimination { victim: id, killer: 0, reason: EliminationReason::HeadCollision },
                );
                proof {
                    assert(eliminations@ =~= base + field@.take(k + 1).filter(is_top).map_values(
                        nobody,
                    ));
                }
            }
            k += 1;
        }
        proof {
            assert(field@.take(k as int) =~= field@);
        }
    } else {
        let winner = field[0];
        let ghost beaten = |id: PlayerId| head_collision(id, winner);
        k = 1;
        proof {
            assert(field@.subrange(1, 1) =~= Seq::<PlayerId>::empty());
            assert(base + field@.subrange(1, 1).map_values(beaten) =~= base);
        }
        while k < field.len()
            invariant
                1 <= k <= field@.len(),
                beaten == |id: PlayerId| head_collision(id, winner),
                eliminations@ == base + field@.subrange(1, k as int).map_values(beaten),
            decreases field@.len() - k,
        {
            let id = field[k];
            proof {
                assert(field@.subrange(1, k + 1) =~= field@.subrange(1, k as int).push(id));
                field@.subrange(1, k as int).lemma_push_map_commute(beaten, id);
            }
            eliminations.push(
                Elimination { victim: id, killer: winner, reason: EliminationReason::HeadCollision },
            );
            proof {
                assert(eliminations@ =~= base + field@.subrange(1, k + 1).map_values(beaten));
            }
            k += 1;
        }
        proof {
            assert(field@.subrange(1, k as int) =~= field@.skip(1));
        }
    }
}

/// Finds every elimination that the present positions and trails cause.
/// Nothing is changed: the caller applies the list. A victim may occur
/// twice in it, once as the owner of a cut trail and once for walking into
/// its own.
pub fn check_collisions(state: &GameState) -> (eliminations: Vec<Elimination>)
    ensures
        eliminations@ == state@.collisions(),
{
    broadcast use vstd::std_specs::hash::group_hash_axioms;

    let ghost s = state@;
    let alive = state.get_alive_ids();
    let mut eliminations: Vec<Elimination> = Vec::new();
    proof {
        s.lemma_alive_ids();
    }
    let mut i: usize = 0;
    while i < alive.len()
        invariant
            i <= alive@.len(),
            s == state@,
            alive@ == s.alive_ids(),
            forall|k: int| 0 <= k < alive@.len() ==> s.is_alive(#[trigger] alive@[k]),
            eliminations@ == s.trail_pass(alive@.take(i as int)),
        decreases alive@.len() - i,
    {
        let id = alive[i];
        proof {
            assert(s.is_alive(alive@[i as int]));
            assert(alive@.take(i + 1).drop_last() =~= alive@.take(i as int));
            assert(eliminations@.take(eliminations@.len() as int) =~= eliminations@);
        }
        match state.players.get(&id) {
            Some(player) => {
                if !player.is_invulnerable() {
                    match trail_owner(state, &alive, &player.position) {
                        Some(owner) => {
                            if owner == id {
                                eliminations.push(
                                    Elimination {
                                        victim: id,
                                        killer: 0,
                                        reason: EliminationReason::SelfCollision,
                                    },
                                );
                            } else if !is_victim(&eliminations, eliminations.len(), owner) {
                                let shielded = match state.players.get(&owner) {
                                    Some(other) => other.is_invulnerable(),
                                    None => false,
                                };
                                proof {
                                    lemma_trail_owner_alive(s, s.alive_ids(), player.position);
                                }
                                if !shielded {
                                    eliminations.push(
                                        Elimination {
                                            victim: owner,
                                            killer: id,
                                            reason: EliminationReason::TrailCut,
                                        },
                                    );
                                }
                            }
                        },
                        None => {},
                    }
                }
            },
            None => {},
        }
        i += 1;
    }
    let cut_len = eliminations.len();
    let ghost cut = eliminations@;
    proof {
        assert(alive@.take(i as int) =~= alive@);
        assert(cut + Seq::<Elimination>::empty() =~= cut);
    }
    i = 0;
    while i < alive.len()
        invariant
            i <= alive@.len(),
            s == state@,
            alive@ == s.alive_ids(),
            forall|k: int| 0 <= k < alive@.len() ==> s.is_alive(#[trigger] alive@[k]),
            cut == s.trail_pass(s.alive_ids()),
            cut_len == cut.len(),
            eliminations@ == cut + s.head_on_pass(cut, alive@.take(i as int)),
        decreases alive@.len() - i,
    {
        let id = alive[i];
        proof {
            assert(s.is_alive(alive@[i as int]));
            assert(alive@.take(i + 1).drop_last() =~= alive@.take(i as int));
            assert(eliminations@.take(cut_len as int) =~= cut);
        }
        match state.players.get(&id) {
            Some(player) => {
                if !stands_before(state, &alive, i, &player.position) {
                    clash(state, &alive, &player.position, &mut eliminations, cut_len);
                    proof {
                        assert(eliminations@ =~= cut + s.head_on_pass(cut, alive@.take(i + 1)));
                    }
                } else {
                    proof {
                        assert(eliminations@ =~= cut + s.head_on_pass(cut, alive@.take(i + 1)));
                    }
                }
            },
            None => {},
        }
        i += 1;
    }
    proof {
        assert(alive@.take(i as int) =~= alive@);
    }
    eliminations
}

/// The owner of a trail among `ids` is one of `ids`.
pub proof fn lemma_trail_owner_alive(s: StateView, ids: Seq<PlayerId>, pos: GridPos)
    ensures
        match s.trail_owner_among(ids, pos) {
            Some(owner) => ids.contains(owner) && s.players[owner].trail.contains(pos),
            None => forall|k: int| 0 <= k < ids.len() ==> !s.players[#[trigger] ids[k]].trail.contains(pos),
        },
    decreases ids.len(),
{
    if ids.len() > 0 {
        if s.players[ids.last()].trail.contains(pos) {
            assert(ids[ids.len() - 1] == ids.last());
        } else {
            lemma_trail_owner_alive(s, ids.drop_last(), pos);
            match s.trail_owner_among(ids.drop_last(), pos) {
                Some(owner) => {
                    let k = choose|k: int|
                        0 <= k < ids.drop_last().len() && ids.drop_last()[k] == owner;
                    assert(ids[k] == owner);
                },
                None => {
                    assert forall|k: int| 0 <= k < ids.len() implies !s.players[#[trigger] ids[k]].trail.contains(
                        pos,
                    ) by {
                        if k < ids.len() - 1 {
                            assert(ids.drop_last()[k] == ids[k]);
                        }
                    }
                },
            }
        }
    }
}

} // verus!
