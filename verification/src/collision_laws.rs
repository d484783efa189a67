use vstd::prelude::*;
use crate::collision::has_victim;
use crate::collision::head_collision;
use crate::collision::lemma_trail_owner_alive;
use crate::collision::self_collision;
use crate::collision::trail_cut;
use crate::collision::Elimination;
use crate::game::PlayerId;
use crate::grid::GridPos;
use crate::roster::is_ascending;
use crate::roster::lemma_filter_members;
use crate::state::StateView;

verus! {

/// A turn only adds to the trail collisions found before it.
pub proof fn lemma_trail_step_grows(s: StateView, found: Seq<Elimination>, id: PlayerId)
    ensures
        found.len() <= s.trail_step(found, id).len(),
        s.trail_step(found, id).take(found.len() as int) == found,
{
    let next = s.trail_step(found, id);
    assert(next.take(found.len() as int) =~= found);
}

/// The trail collisions of the first `k` players are the first trail
/// collisions of them all.
pub proof fn lemma_trail_pass_grows(s: StateView, ids: Seq<PlayerId>, k: int)
    requires
        0 <= k <= ids.len(),
    ensures
        s.trail_pass(ids.take(k)).len() <= s.trail_pass(ids).len(),
        s.trail_pass(ids).take(s.trail_pass(ids.take(k)).len() as int) == s.trail_pass(
            ids.take(k),
        ),
    decreases ids.len() - k,
{
    if k == ids.len() {
        assert(ids.take(k) =~= ids);
        assert(s.trail_pass(ids).take(s.trail_pass(ids).len() as int) =~= s.trail_pass(ids));
    } else {
        let front = ids.drop_last();
        assert(front.take(k) =~= ids.take(k));
        lemma_trail_pass_grows(s, front, k);
        lemma_trail_step_grows(s, s.trail_pass(front), ids.last());
        let part = s.trail_pass(ids.take(k));
        let most = s.trail_pass(front);
        let all = s.trail_pass(ids);
        assert(all.take(part.len() as int) =~= most.take(part.len() as int));
    }
}

/// Whatever the first `k` turns found stays found.
pub proof fn lemma_trail_pass_keeps(s: StateView, ids: Seq<PlayerId>, k: int, e: Elimination)
    requires
        0 <= k <= ids.len(),
        s.trail_pass(ids.take(k)).contains(e),
    ensures
        s.trail_pass(ids).contains(e),
{
    lemma_trail_pass_grows(s, ids, k);
    let part = s.trail_pass(ids.take(k));
    let at = choose|at: int| 0 <= at < part.len() && part[at] == e;
    assert(s.trail_pass(ids).take(part.len() as int)[at] == e);
    assert(s.trail_pass(ids)[at] == e);
}

/// The trail collisions found before the turn of `id`: those of the living
/// players with smaller ids.
pub open spec fn cut_before(s: StateView, id: PlayerId) -> Seq<Elimination> {
    s.trail_pass(s.alive_ids().filter(|other: PlayerId| other < id))
}

/// In an increasing sequence, the members below one of its members are the
/// members before it.
pub proof fn lemma_filter_below_is_take(ids: Seq<PlayerId>, k: int)
    requires
        is_ascending(ids),
        0 <= k < ids.len(),
    ensures
        ids.filter(|other: PlayerId| other < ids[k]) == ids.take(k),
    decreases ids.len(),
{
    let below = |other: PlayerId| other < ids[k];
    let front = ids.drop_last();
    assert(ids =~= front.push(ids.last()));
    front.lemma_filter_push(ids.last(), below);
    if k == ids.len() - 1 {
        assert(front.filter(below) == front) by {
            lemma_filter_all(front, below);
        }
        assert(ids.take(k) =~= front);
    } else {
        lemma_filter_below_is_take(front, k);
        assert(front[k] == ids[k]);
        assert(front.filter(|other: PlayerId| other < front[k]) == front.filter(below)) by {
            assert((|other: PlayerId| other < front[k]) =~= below);
        }
        assert(front.take(k) =~= ids.take(k));
    }
}

/// A filter that every member passes changes nothing.
pub proof fn lemma_filter_all(ids: Seq<PlayerId>, pred: spec_fn(PlayerId) -> bool)
    requires
        forall|i: int| 0 <= i < ids.len() ==> pred(#[trigger] ids[i]),
    ensures
        ids.filter(pred) == ids,
    decreases ids.len(),
{
    if ids.len() == 0 {
        assert(ids.filter(pred) =~= ids) by {
            reveal(Seq::filter);
        }
    } else {
        let front = ids.drop_last();
        assert(ids =~= front.push(ids.last()));
        front.lemma_filter_push(ids.last(), pred);
        assert forall|i: int| 0 <= i < front.len() implies pred(#[trigger] front[i]) by {
            assert(front[i] == ids[i]);
        }
        lemma_filter_all(front, pred);
    }
}

/// Where no living player with a greater id has `pos` on its trail, a
/// living player that has it owns the trail there.
pub proof fn lemma_trail_owner_is(s: StateView, ids: Seq<PlayerId>, id: PlayerId, pos: GridPos)
    requires
        ids.contains(id),
        s.players[id].trail.contains(pos),
        forall|k: int|
            0 <= k < ids.len() && #[trigger] ids[k] != id ==> ids[k] < id
                || !s.players[ids[k]].trail.contains(pos),
        is_ascending(ids),
    ensures
        s.trail_owner_among(ids, pos) == Some(id),
    decreases ids.len(),
{
    if ids.last() != id {
        let at = choose|at: int| 0 <= at < ids.len() && ids[at] == id;
        assert(ids[ids.len() - 1] != id);
        assert(ids[at] < ids[ids.len() - 1]);
        let front = ids.drop_last();
        assert(front[at] == id);
        assert forall|k: int| 0 <= k < front.len() && #[trigger] front[k] != id implies front[k]
            < id || !s.players[front[k]].trail.contains(pos) by {
            assert(front[k] == ids[k]);
        }
        lemma_trail_owner_is(s, front, id, pos);
    }
}

/// A living, vulnerable player that stands on its own trail is eliminated
/// for it, by nobody. Where the trails of several living players hold the
/// cell, this is true of the one with the greatest id: the cell counts as
/// its trail.
pub proof fn law_self_collision(s: StateView, id: PlayerId)
    requires
        s.is_alive(id),
        !s.players[id].is_invulnerable(),
        s.players[id].trail.contains(s.players[id].position),
        forall|other: PlayerId|
            s.is_alive(other) && other > id ==> !s.players[other].trail.contains(
                s.players[id].position,
            ),
    ensures
        s.collisions().contains(self_collision(id)),
        has_victim(s.collisions(), id),
{
    let alive = s.alive_ids();
    let pos = s.players[id].position;
    s.lemma_alive_ids();
    assert(alive.contains(id));
    let k = choose|k: int| 0 <= k < alive.len() && alive[k] == id;
    assert forall|j: int| 0 <= j < alive.len() && #[trigger] alive[j] != id implies alive[j] < id
        || !s.players[alive[j]].trail.contains(pos) by {
        assert(s.is_alive(alive[j]));
    }
    lemma_trail_owner_is(s, alive, id, pos);
    let turn = alive.take(k + 1);
    assert(turn.drop_last() =~= alive.take(k));
    assert(turn.last() == id);
    let found = s.trail_pass(turn);
    assert(found == s.trail_pass(alive.take(k)).push(self_collision(id)));
    assert(found[found.len() - 1] == self_collision(id));
    lemma_trail_pass_keeps(s, alive, k + 1, self_collision(id));
    let cut = s.trail_pass(alive);
    let at = choose|at: int| 0 <= at < cut.len() && cut[at] == self_collision(id);
    assert(s.collisions()[at] == self_collision(id));
}

/// A living, vulnerable player `b` that stands on the trail of another
/// living, vulnerable player `a` brings about the elimination of `a`: `a` is
/// among the victims, and unless it was found a victim before the turn of
/// `b`, its elimination is the trail cut by `b`.
pub proof fn law_trail_cut(s: StateView, a: PlayerId, b: PlayerId)
    requires
        s.is_alive(a),
        s.is_alive(b),
        a != b,
        !s.players[a].is_invulnerable(),
        !s.players[b].is_invulnerable(),
        s.trail_owner(s.players[b].position) == Some(a),
    ensures
        has_victim(s.collisions(), a),
        !has_victim(cut_before(s, b), a) ==> s.collisions().contains(trail_cut(a, b)),
{
    let alive = s.alive_ids();
    s.lemma_alive_ids();
    assert(alive.contains(b));
    let k = choose|k: int| 0 <= k < alive.len() && alive[k] == b;
    lemma_filter_below_is_take(alive, k);
    assert(cut_before(s, b) == s.trail_pass(alive.take(k))) by {
        assert((|other: PlayerId| other < b) =~= (|other: PlayerId| other < alive[k]));
    }
    let before = s.trail_pass(alive.take(k));
    let turn = alive.take(k + 1);
    assert(turn.drop_last() =~= alive.take(k));
    assert(turn.last() == b);
    let found = s.trail_pass(turn);
    let cut = s.trail_pass(alive);
    lemma_trail_pass_grows(s, alive, k + 1);
    if has_victim(before, a) {
        lemma_trail_step_grows(s, before, b);
        let at = choose|at: int| 0 <= at < before.len() && (#[trigger] before[at]).victim == a;
        assert(found.take(before.len() as int)[at] == before[at]);
        assert(cut.take(found.len() as int)[at] == found[at]);
        assert(s.collisions()[at].victim == a);
    } else {
        assert(found == before.push(trail_cut(a, b)));
        let at = before.len() as int;
        assert(found[at] == trail_cut(a, b));
        assert(cut.take(found.len() as int)[at] == found[at]);
        assert(s.collisions()[at] == trail_cut(a, b));
    }
}

/// Ranking keeps exactly the players it is given.
pub proof fn lemma_ranked_members(s: StateView, ids: Seq<PlayerId>)
    ensures
        s.ranked(ids).len() == ids.len(),
        forall|id: PlayerId|
            #![trigger s.ranked(ids).contains(id)]
            s.ranked(ids).contains(id) <==> ids.contains(id),
    decreases ids.len(),
{
    if ids.len() == 0 {
        assert forall|id: PlayerId| !ids.contains(id) by {
            if ids.contains(id) {
                let k = choose|k: int| 0 <= k < ids.len() && ids[k] == id;
            }
        }
    } else {
        let front = ids.drop_last();
        lemma_ranked_members(s, front);
        lemma_rank_insert_members(s, s.ranked(front), ids.last());
        assert forall|id: PlayerId| s.ranked(ids).contains(id) <==> ids.contains(id) by {
            if ids.contains(id) {
                let k = choose|k: int| 0 <= k < ids.len() && ids[k] == id;
                if k < front.len() {
                    assert(front[k] == id);
                }
            }
            if front.contains(id) {
                let k = choose|k: int| 0 <= k < front.len() && front[k] == id;
                assert(ids[k] == id);
            }
            if id == ids.last() {
                assert(ids[ids.len() - 1] == id);
            }
        }
    }
}

/// `rank_insert` adds one player and keeps the others.
pub proof fn lemma_rank_insert_members(s: StateView, ranked: Seq<PlayerId>, id: PlayerId)
    ensures
        s.rank_insert(ranked, id).len() == ranked.len() + 1,
        forall|other: PlayerId|
            #![trigger s.rank_insert(ranked, id).contains(other)]
            s.rank_insert(ranked, id).contains(other) <==> (ranked.contains(other) || other == id),
    decreases ranked.len(),
{
    let all = s.rank_insert(ranked, id);
    if ranked.len() == 0 {
        assert forall|other: PlayerId| all.contains(other) <==> (ranked.contains(other) || other
            == id) by {
            if all.contains(other) {
                let k = choose|k: int| 0 <= k < all.len() && all[k] == other;
            }
            if ranked.contains(other) {
                let k = choose|k: int| 0 <= k < ranked.len() && ranked[k] == other;
            }
            if other == id {
                assert(all[0] == id);
            }
        }
    } else if s.players[ranked.last()].score >= s.players[id].score {
        assert forall|other: PlayerId| all.contains(other) <==> (ranked.contains(other) || other
            == id) by {
            if all.contains(other) {
                let k = choose|k: int| 0 <= k < all.len() && all[k] == other;
                if k < ranked.len() {
                    assert(ranked[k] == other);
                }
            }
            if ranked.contains(other) {
                let k = choose|k: int| 0 <= k < ranked.len() && ranked[k] == other;
                assert(all[k] == other);
            }
            if other == id {
                assert(all[ranked.len() as int] == id);
            }
        }
    } else {
        let front = ranked.drop_last();
        let inner = s.rank_insert(front, id);
        lemma_rank_insert_members(s, front, id);
        assert forall|other: PlayerId| all.contains(other) <==> (ranked.contains(other) || other
            == id) by {
            if all.contains(other) {
                let k = choose|k: int| 0 <= k < all.len() && all[k] == other;
                if k < inner.len() {
                    assert(inner[k] == other);
                    assert(inner.contains(other));
                    if front.contains(other) {
                        let j = choose|j: int| 0 <= j < front.len() && front[j] == other;
                        assert(ranked[j] == other);
                    }
                } else {
                    assert(ranked[ranked.len() - 1] == other);
                }
            }
            if ranked.contains(other) {
                let k = choose|k: int| 0 <= k < ranked.len() && ranked[k] == other;
                if k < front.len() {
                    assert(front[k] == other);
                    assert(front.contains(other));
                    assert(inner.contains(other));
                    let j = choose|j: int| 0 <= j < inner.len() && inner[j] == other;
                    assert(all[j] == other);
                } else {
                    assert(all[inner.len() as int] == other);
                }
            }
            if other == id {
                assert(inner.contains(id));
                let j = choose|j: int| 0 <= j < inner.len() && inner[j] == id;
                assert(all[j] == id);
            }
        }
    }
}

/// Every trail collision takes out a living player that can be hurt.
pub proof fn lemma_trail_pass_victims(s: StateView, ids: Seq<PlayerId>, e: Elimination)
    requires
        forall|k: int| 0 <= k < ids.len() ==> s.is_alive(#[trigger] ids[k]),
        s.trail_pass(ids).contains(e),
    ensures
        s.is_alive(e.victim),
        !s.players[e.victim].is_invulnerable(),
    decreases ids.len(),
{
    if ids.len() > 0 {
        let front = ids.drop_last();
        let found = s.trail_pass(front);
        let all = s.trail_pass(ids);
        let id = ids.last();
        assert(s.is_alive(ids[ids.len() - 1]));
        assert forall|k: int| 0 <= k < front.len() implies s.is_alive(#[trigger] front[k]) by {
            assert(front[k] == ids[k]);
        }
        let at = choose|at: int| 0 <= at < all.len() && all[at] == e;
        if at < found.len() {
            lemma_trail_step_grows(s, found, id);
            assert(all.take(found.len() as int)[at] == all[at]);
            assert(found.contains(e));
            lemma_trail_pass_victims(s, front, e);
        } else {
            s.lemma_alive_ids();
            lemma_trail_owner_alive(s, s.alive_ids(), s.players[id].position);
        }
    } else {
        let all = s.trail_pass(ids);
        let at = choose|at: int| 0 <= at < all.len() && all[at] == e;
    }
}

/// Every elimination of a meeting takes out a contender, for a head-on
/// collision.
pub proof fn lemma_clash_victims(s: StateView, cut: Seq<Elimination>, pos: GridPos, e: Elimination)
    requires
        s.clash(cut, pos).contains(e),
    ensures
        s.contenders(cut, pos).contains(e.victim),
        e == head_collision(e.victim, e.killer),
{
    let field = s.ranked(s.contenders(cut, pos));
    let out = s.clash(cut, pos);
    let at = choose|at: int| 0 <= at < out.len() && out[at] == e;
    lemma_ranked_members(s, s.contenders(cut, pos));
    if field.len() >= 2 {
        let is_top = s.scores(s.players[field[0]].score);
        let tied = field.filter(is_top);
        if tied.len() >= 2 {
            assert(e == head_collision(tied[at], 0));
            assert(tied.contains(tied[at]));
            lemma_filter_members(field, is_top);
        } else {
            assert(e == head_collision(field.skip(1)[at], field[0]));
            assert(field[at + 1] == e.victim);
            assert(field.contains(e.victim));
        }
    }
}

/// Every elimination of the meetings was decided on the cell where its
/// victim stands.
pub proof fn lemma_head_on_pass_victims(
    s: StateView,
    cut: Seq<Elimination>,
    ids: Seq<PlayerId>,
    e: Elimination,
)
    requires
        s.head_on_pass(cut, ids).contains(e),
    ensures
        s.clash(cut, s.players[e.victim].position).contains(e),
        s.contenders(cut, s.players[e.victim].position).contains(e.victim),
    decreases ids.len(),
{
    let all = s.head_on_pass(cut, ids);
    let at = choose|at: int| 0 <= at < all.len() && all[at] == e;
    if ids.len() > 0 {
        let front = ids.drop_last();
        let before = s.head_on_pass(cut, front);
        let pos = s.players[ids.last()].position;
        if at < before.len() {
            assert(before[at] == e);
            assert(before.contains(e));
            lemma_head_on_pass_victims(s, cut, front, e);
        } else {
            let met = s.clash(cut, pos);
            assert(met[at - before.len()] == e);
            assert(met.contains(e));
            lemma_clash_victims(s, cut, pos, e);
            lemma_contender(s, cut, pos, e.victim);
        }
    }
}

/// A contender on `pos` is a living player that stands there, can be hurt,
/// and did not lose its trail.
pub proof fn lemma_contender(s: StateView, cut: Seq<Elimination>, pos: GridPos, id: PlayerId)
    ensures
        s.contenders(cut, pos).contains(id) <==> {
            &&& s.is_alive(id)
            &&& s.players[id].position == pos
            &&& !has_victim(cut, id)
            &&& !s.players[id].is_invulnerable()
        },
{
    let alive = s.alive_ids();
    let pred = s.contends(cut, pos);
    let field = alive.filter(pred);
    s.lemma_alive_ids();
    lemma_filter_members(alive, pred);
}

/// Whoever is eliminated by a collision was alive and could be hurt.
pub proof fn lemma_victims_vulnerable(s: StateView, e: Elimination)
    requires
        s.collisions().contains(e),
    ensures
        s.is_alive(e.victim),
        !s.players[e.victim].is_invulnerable(),
{
    let alive = s.alive_ids();
    let cut = s.trail_pass(alive);
    let met = s.head_on_pass(cut, alive);
    let all = s.collisions();
    s.lemma_alive_ids();
    let at = choose|at: int| 0 <= at < all.len() && all[at] == e;
    if at < cut.len() {
        assert(cut[at] == e);
        assert(cut.contains(e));
        lemma_trail_pass_victims(s, alive, e);
    } else {
        assert(met[at - cut.len()] == e);
        assert(met.contains(e));
        lemma_head_on_pass_victims(s, cut, alive, e);
        lemma_contender(s, cut, s.players[e.victim].position, e.victim);
    }
}

/// The meeting on a cell where one of the players `ids` stands is part of
/// the meetings of `ids`.
pub proof fn lemma_head_on_pass_has_clash(
    s: StateView,
    cut: Seq<Elimination>,
    ids: Seq<PlayerId>,
    pos: GridPos,
    e: Elimination,
)
    requires
        s.stands_on(ids, pos),
        s.clash(cut, pos).contains(e),
    ensures
        s.head_on_pass(cut, ids).contains(e),
    decreases ids.len(),
{
    let k = choose|k: int| 0 <= k < ids.len() && s.players[#[trigger] ids[k]].position == pos;
    let front = ids.drop_last();
    let before = s.head_on_pass(cut, front);
    let all = s.head_on_pass(cut, ids);
    if s.stands_on(front, pos) {
        lemma_head_on_pass_has_clash(s, cut, front, pos, e);
        let at = choose|at: int| 0 <= at < before.len() && before[at] == e;
        assert(all[at] == e);
    } else {
        if k < front.len() {
            assert(s.players[front[k]].position == pos);
        }
        assert(s.players[ids.last()].position == pos);
        let met = s.clash(cut, pos);
        let at = choose|at: int| 0 <= at < met.len() && met[at] == e;
        assert(all[before.len() + at] == e);
    }
}

/// An increasing sequence with the two members `a` and `b` is `[a, b]`.
pub proof fn lemma_pair_listing(ids: Seq<PlayerId>, a: PlayerId, b: PlayerId)
    requires
        is_ascending(ids),
        a < b,
        forall|id: PlayerId| ids.contains(id) <==> (id == a || id == b),
    ensures
        ids == seq![a, b],
{
    assert(ids.contains(a));
    assert(ids.contains(b));
    let i = choose|i: int| 0 <= i < ids.len() && ids[i] == a;
    let j = choose|j: int| 0 <= j < ids.len() && ids[j] == b;
    if ids.len() > 2 {
        let k: int = if i != 0 && j != 0 {
            0
        } else if i != 1 && j != 1 {
            1
        } else {
            2
        };
        assert(ids.contains(ids[k]));
        assert(ids[k] == a || ids[k] == b);
        if k < i {
            assert(ids[k] < ids[i]);
        }
        if i < k {
            assert(ids[i] < ids[k]);
        }
        if k < j {
            assert(ids[k] < ids[j]);
        }
        if j < k {
            assert(ids[j] < ids[k]);
        }
        assert(false);
    }
    if j < i {
        assert(ids[j] < ids[i]);
    }
    assert(ids =~= seq![a, b]);
}

/// Two living, vulnerable players that meet on one cell, neither having
/// lost its trail this tick and nobody else contending: with equal scores
/// both are eliminated, by nobody; otherwise the one with the lower score
/// is eliminated by the other, who is not eliminated at all.
pub proof fn law_head_on(s: StateView, a: PlayerId, b: PlayerId)
    requires
        a < b,
        s.is_alive(a),
        s.is_alive(b),
        s.players[a].position == s.players[b].position,
        !s.players[a].is_invulnerable(),
        !s.players[b].is_invulnerable(),
        !has_victim(s.trail_pass(s.alive_ids()), a),
        !has_victim(s.trail_pass(s.alive_ids()), b),
        forall|other: PlayerId|
            s.is_alive(other) && other != a && other != b && s.players[other].position
                == s.players[a].position ==> s.players[other].is_invulnerable() || has_victim(
                s.trail_pass(s.alive_ids()),
                other,
            ),
    ensures
        s.players[a].score == s.players[b].score ==> s.collisions().contains(
            head_collision(a, 0),
        ) && s.collisions().contains(head_collision(b, 0)),
        s.players[a].score > s.players[b].score ==> s.collisions().contains(
            head_collision(b, a),
        ) && !has_victim(s.collisions(), a),
        s.players[a].score < s.players[b].score ==> s.collisions().contains(
            head_collision(a, b),
        ) && !has_victim(s.collisions(), b),
{
    let alive = s.alive_ids();
    let cut = s.trail_pass(alive);
    let pos = s.players[a].position;
    let pred = s.contends(cut, pos);
    let field = s.contenders(cut, pos);
    s.lemma_alive_ids();
    crate::roster::lemma_filter_keeps_order(alive, pred);
    assert forall|id: PlayerId| field.contains(id) <==> (id == a || id == b) by {
        lemma_contender(s, cut, pos, id);
    }
    lemma_pair_listing(field, a, b);
    let one = seq![a];
    assert(field.drop_last() =~= one);
    assert(one.drop_last() =~= Seq::<PlayerId>::empty());
    assert(s.ranked(Seq::<PlayerId>::empty()) =~= Seq::<PlayerId>::empty());
    assert(s.ranked(one) == s.rank_insert(s.ranked(one.drop_last()), a));
    assert(s.ranked(one) =~= one);
    assert(s.ranked(field) == s.rank_insert(one, b));
    let ranked = s.ranked(field);
    let met = s.clash(cut, pos);
    let all = s.collisions();
    let heads = s.head_on_pass(cut, alive);
    assert(alive.contains(a));
    let turn = choose|turn: int| 0 <= turn < alive.len() && alive[turn] == a;
    assert(s.players[alive[turn]].position == pos);
    assert(s.stands_on(alive, pos));
    let empty = Seq::<PlayerId>::empty();
    if s.players[a].score >= s.players[b].score {
        assert(ranked =~= seq![a, b]);
        let is_top = s.scores(s.players[a].score);
        assert(ranked =~= empty.push(a).push(b));
        empty.lemma_filter_push(a, is_top);
        empty.push(a).lemma_filter_push(b, is_top);
        assert(empty.filter(is_top) =~= empty) by {
            reveal(Seq::filter);
        }
        if s.players[a].score == s.players[b].score {
            assert(ranked.filter(is_top) =~= seq![a, b]);
            assert(met[0] == head_collision(a, 0));
            assert(met[1] == head_collision(b, 0));
            lemma_head_on_pass_has_clash(s, cut, alive, pos, head_collision(a, 0));
            lemma_head_on_pass_has_clash(s, cut, alive, pos, head_collision(b, 0));
            lemma_pass_in_collisions(s, head_collision(a, 0));
            lemma_pass_in_collisions(s, head_collision(b, 0));
        } else {
            assert(ranked.filter(is_top) =~= seq![a]);
            assert(ranked.skip(1) =~= seq![b]);
            assert(met =~= seq![head_collision(b, a)]);
            assert(met[0] == head_collision(b, a));
            lemma_head_on_pass_has_clash(s, cut, alive, pos, head_collision(b, a));
            lemma_pass_in_collisions(s, head_collision(b, a));
            lemma_only_victim(s, a, b);
        }
    } else {
        assert(s.rank_insert(one, b) == s.rank_insert(one.drop_last(), b).push(a));
        assert(s.rank_insert(empty, b) =~= seq![b]);
        assert(ranked =~= seq![b, a]);
        let is_top = s.scores(s.players[b].score);
        assert(ranked =~= empty.push(b).push(a));
        empty.lemma_filter_push(b, is_top);
        empty.push(b).lemma_filter_push(a, is_top);
        assert(empty.filter(is_top) =~= empty) by {
            reveal(Seq::filter);
        }
        assert(ranked.filter(is_top) =~= seq![b]);
        assert(ranked.skip(1) =~= seq![a]);
        assert(met =~= seq![head_collision(a, b)]);
        assert(met[0] == head_collision(a, b));
        lemma_head_on_pass_has_clash(s, cut, alive, pos, head_collision(a, b));
        lemma_pass_in_collisions(s, head_collision(a, b));
        lemma_only_victim(s, b, a);
    }
}

/// What the meetings decide is part of the collisions.
pub proof fn lemma_pass_in_collisions(s: StateView, e: Elimination)
    requires
        s.head_on_pass(s.trail_pass(s.alive_ids()), s.alive_ids()).contains(e),
    ensures
        s.collisions().contains(e),
{
    let cut = s.trail_pass(s.alive_ids());
    let heads = s.head_on_pass(cut, s.alive_ids());
    let at = choose|at: int| 0 <= at < heads.len() && heads[at] == e;
    assert(s.collisions()[cut.len() + at] == e);
}

/// Where the meeting on the cell of `winner` takes out only `loser`, and
/// `winner` kept its trail, `winner` is no victim of any collision.
pub proof fn lemma_only_victim(s: StateView, winner: PlayerId, loser: PlayerId)
    requires
        winner != loser,
        !has_victim(s.trail_pass(s.alive_ids()), winner),
        s.clash(s.trail_pass(s.alive_ids()), s.players[winner].position) == seq![
            head_collision(loser, winner),
        ],
    ensures
        !has_victim(s.collisions(), winner),
{
    let alive = s.alive_ids();
    let cut = s.trail_pass(alive);
    let heads = s.head_on_pass(cut, alive);
    let all = s.collisions();
    if has_victim(all, winner) {
        let at = choose|at: int| 0 <= at < all.len() && (#[trigger] all[at]).victim == winner;
        if at < cut.len() {
            assert(cut[at].victim == winner);
        } else {
            let e = heads[at - cut.len()];
            assert(heads.contains(e));
            lemma_head_on_pass_victims(s, cut, alive, e);
            let met = s.clash(cut, s.players[winner].position);
            let k = choose|k: int| 0 <= k < met.len() && met[k] == e;
            assert(met[0] == head_collision(loser, winner));
        }
    }
}

} // verus!
