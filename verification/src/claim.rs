use vstd::prelude::*;
use crate::flood::flood_fill_from_edges;
use crate::game::PlayerId;
use crate::grid::GridPos;
use crate::territory::GridView;
use crate::territory::TerritoryGrid;
use crate::territory::lemma_index_roundtrip;
use crate::territory::lemma_pos_roundtrip;

verus! {

/// What a claim changed.
#[derive(Debug)]
pub struct ClaimResult {
    /// Number of cells that became the claimant's.
    pub cells_claimed: usize,
    /// Number of those cells that another player owned before.
    pub cells_stolen: usize,
    /// The players who lost cells, each once, in the order they were first
    /// robbed.
    pub victims: Vec<PlayerId>,
}

impl Default for ClaimResult {
    fn default() -> (result: Self)
        ensures
            result.cells_claimed == 0,
            result.cells_stolen == 0,
            result.victims@ == Seq::<PlayerId>::empty(),
    {
        Self { cells_claimed: 0, cells_stolen: 0, victims: Vec::new() }
    }
}

/// How many positions satisfy `f` of what the cell held before and holds
/// after.
pub open spec fn count_pairs(
    before: Seq<Option<PlayerId>>,
    after: Seq<Option<PlayerId>>,
    f: spec_fn(Option<PlayerId>, Option<PlayerId>) -> bool,
) -> nat
    decreases before.len(),
{
    if before.len() == 0 || after.len() != before.len() {
        0
    } else {
        count_pairs(before.drop_last(), after.drop_last(), f) + if f(before.last(), after.last()) {
            1nat
        } else {
            0nat
        }
    }
}

/// A cell that `player_id` did not own before and owns after.
pub open spec fn is_gain(player_id: PlayerId) -> spec_fn(Option<PlayerId>, Option<PlayerId>) -> bool {
    |b: Option<PlayerId>, a: Option<PlayerId>| b != Some(player_id) && a == Some(player_id)
}

/// A cell that another player owned before and `player_id` owns after.
pub open spec fn is_theft(player_id: PlayerId) -> spec_fn(Option<PlayerId>, Option<PlayerId>) -> bool {
    |b: Option<PlayerId>, a: Option<PlayerId>|
        b.is_some() && b != Some(player_id) && a == Some(player_id)
}

/// Number of cells that `player_id` gained between two grids.
pub open spec fn count_gained(before: GridView, after: GridView, player_id: PlayerId) -> nat {
    count_pairs(before.cells, after.cells, is_gain(player_id))
}

/// Number of cells that `player_id` took from other players between two
/// grids.
pub open spec fn count_stolen(before: GridView, after: GridView, player_id: PlayerId) -> nat {
    count_pairs(before.cells, after.cells, is_theft(player_id))
}

/// `ids` with `id` appended unless it is there already.
pub open spec fn push_unique(ids: Seq<PlayerId>, id: PlayerId) -> Seq<PlayerId> {
    if ids.contains(id) {
        ids
    } else {
        ids.push(id)
    }
}

impl GridView {
    /// The grid after every cell of `cells` that lies inside it is handed to
    /// `owner`.
    pub open spec fn assign(self, owner: Option<PlayerId>, cells: Seq<GridPos>) -> GridView
        decreases cells.len(),
    {
        if cells.len() == 0 {
            self
        } else {
            self.assign(owner, cells.drop_last()).with_owner(cells.last(), owner)
        }
    }

    /// The grid after `player_id` takes every cell of `cells` that lies
    /// inside it.
    pub open spec fn mark_trail(self, player_id: PlayerId, cells: Seq<GridPos>) -> GridView {
        self.assign(Some(player_id), cells)
    }

    /// The grid after `player_id` takes every cell it encloses.
    pub open spec fn fill_enclosed(self, player_id: PlayerId) -> GridView {
        GridView {
            cells: Seq::new(
                self.cells.len(),
                |i: int|
                    if self.enclosed_at(i, player_id) {
                        Some(player_id)
                    } else {
                        self.cells[i]
                    },
            ),
            ..self
        }
    }

    /// The grid after `player_id` completes `trail`: the trail becomes its
    /// territory, and so does everything that its territory then encloses.
    /// An empty trail claims nothing.
    pub open spec fn claimed_by(self, player_id: PlayerId, trail: Seq<GridPos>) -> GridView {
        if trail.len() == 0 {
            self
        } else {
            self.mark_trail(player_id, trail).fill_enclosed(player_id)
        }
    }

    /// The cells that a claim of `trail` visits, in order: the trail, then
    /// what the marked trail encloses, row by row.
    pub open spec fn claim_order(self, player_id: PlayerId, trail: Seq<GridPos>) -> Seq<GridPos> {
        if trail.len() == 0 {
            trail
        } else {
            trail + self.mark_trail(player_id, trail).enclosed_cells(player_id)
        }
    }

    /// The other players that own a cell of `cells`, each once, in the order
    /// of their first cell.
    pub open spec fn robbed(self, player_id: PlayerId, cells: Seq<GridPos>) -> Seq<PlayerId>
        decreases cells.len(),
    {
        if cells.len() == 0 {
            Seq::empty()
        } else {
            let rest = self.robbed(player_id, cells.drop_last());
            match self.owner(cells.last()) {
                Some(owner) => if owner != player_id {
                    push_unique(rest, owner)
                } else {
                    rest
                },
                None => rest,
            }
        }
    }
}

pub proof fn lemma_count_pairs_update(
    before: Seq<Option<PlayerId>>,
    after: Seq<Option<PlayerId>>,
    f: spec_fn(Option<PlayerId>, Option<PlayerId>) -> bool,
    i: int,
    v: Option<PlayerId>,
)
    requires
        before.len() == after.len(),
        0 <= i < after.len(),
    ensures
        count_pairs(before, after.update(i, v), f) + (if f(before[i], after[i]) {
            1nat
        } else {
            0nat
        }) == count_pairs(before, after, f) + (if f(before[i], v) {
            1nat
        } else {
            0nat
        }),
    decreases before.len(),
{
    let updated = after.update(i, v);
    if i == after.len() - 1 {
        assert(updated.drop_last() =~= after.drop_last());
    } else {
        assert(updated.drop_last() =~= after.drop_last().update(i, v));
        lemma_count_pairs_update(before.drop_last(), after.drop_last(), f, i, v);
    }
}

pub proof fn lemma_count_pairs_bound(
    before: Seq<Option<PlayerId>>,
    after: Seq<Option<PlayerId>>,
    f: spec_fn(Option<PlayerId>, Option<PlayerId>) -> bool,
)
    ensures
        count_pairs(before, after, f) <= before.len(),
    decreases before.len(),
{
    if before.len() > 0 && after.len() == before.len() {
        lemma_count_pairs_bound(before.drop_last(), after.drop_last(), f);
    }
}

/// Where no position satisfies `f`, the count is zero.
pub proof fn lemma_count_pairs_none(
    before: Seq<Option<PlayerId>>,
    after: Seq<Option<PlayerId>>,
    f: spec_fn(Option<PlayerId>, Option<PlayerId>) -> bool,
)
    requires
        before.len() == after.len(),
        forall|i: int| 0 <= i < before.len() ==> !f(#[trigger] before[i], after[i]),
    ensures
        count_pairs(before, after, f) == 0,
    decreases before.len(),
{
    if before.len() > 0 {
        assert(!f(before[before.len() - 1], after[before.len() - 1]));
        lemma_count_pairs_none(before.drop_last(), after.drop_last(), f);
    }
}

/// Handing cells to an owner keeps the shape of the grid, and every cell
/// keeps its owner unless `cells` holds its position, in which case it is
/// `owner`'s.
pub proof fn lemma_assign_cells(g: GridView, owner: Option<PlayerId>, cells: Seq<GridPos>)
    requires
        g.cells.len() == g.width * g.height,
    ensures
        g.assign(owner, cells).width == g.width,
        g.assign(owner, cells).height == g.height,
        g.assign(owner, cells).cells.len() == g.cells.len(),
        forall|i: int|
            0 <= i < g.cells.len() ==> #[trigger] g.assign(owner, cells).cells[i] == (if exists|
                k: int,
            |
                0 <= k < cells.len() && g.in_bounds(#[trigger] cells[k]) && g.index_of(cells[k])
                    == i {
                owner
            } else {
                g.cells[i]
            }),
    decreases cells.len(),
{
    if cells.len() > 0 {
        let front = cells.drop_last();
        let last = cells.last();
        lemma_assign_cells(g, owner, front);
        let mid = g.assign(owner, front);
        let all = g.assign(owner, cells);
        if g.in_bounds(last) {
            lemma_index_roundtrip(g, last);
        }
        assert forall|i: int| 0 <= i < g.cells.len() implies #[trigger] all.cells[i] == (
        if exists|k: int|
            0 <= k < cells.len() && g.in_bounds(#[trigger] cells[k]) && g.index_of(cells[k]) == i {
            owner
        } else {
            g.cells[i]
        }) by {
            let hit_front = exists|k: int|
                0 <= k < front.len() && g.in_bounds(#[trigger] front[k]) && g.index_of(front[k])
                    == i;
            let hit = exists|k: int|
                0 <= k < cells.len() && g.in_bounds(#[trigger] cells[k]) && g.index_of(cells[k])
                    == i;
            if hit_front {
                let k = choose|k: int|
                    0 <= k < front.len() && g.in_bounds(#[trigger] front[k]) && g.index_of(
                        front[k],
                    ) == i;
                assert(cells[k] == front[k]);
            }
            if g.in_bounds(last) && g.index_of(last) == i {
                assert(cells[cells.len() - 1] == last);
            }
            if hit {
                let k = choose|k: int|
                    0 <= k < cells.len() && g.in_bounds(#[trigger] cells[k]) && g.index_of(
                        cells[k],
                    ) == i;
                if k < front.len() {
                    assert(front[k] == cells[k]);
                }
            }
        }
    }
}

/// Handing over a concatenation is handing over its parts in turn.
pub proof fn lemma_assign_concat(
    g: GridView,
    owner: Option<PlayerId>,
    first: Seq<GridPos>,
    second: Seq<GridPos>,
)
    ensures
        g.assign(owner, first + second) == g.assign(owner, first).assign(owner, second),
    decreases second.len(),
{
    if second.len() == 0 {
        assert(first + second =~= first);
    } else {
        assert((first + second).drop_last() =~= first + second.drop_last());
        lemma_assign_concat(g, owner, first, second.drop_last());
    }
}

/// `enclosed_below` holds exactly the positions of the enclosed cells under
/// the bound.
pub proof fn lemma_enclosed_below_members(g: GridView, player_id: PlayerId, n: int)
    ensures
        forall|pos: GridPos|
            #![trigger g.enclosed_below(player_id, n).contains(pos)]
            g.enclosed_below(player_id, n).contains(pos) <==> exists|i: int|
                0 <= i < n && #[trigger] g.enclosed_at(i, player_id) && g.pos_at(i) == pos,
    decreases n,
{
    let all = g.enclosed_below(player_id, n);
    if n <= 0 {
        assert forall|pos: GridPos| !all.contains(pos) by {
            if all.contains(pos) {
                let k = choose|k: int| 0 <= k < all.len() && all[k] == pos;
            }
        }
    } else {
        let rest = g.enclosed_below(player_id, n - 1);
        lemma_enclosed_below_members(g, player_id, n - 1);
        assert forall|pos: GridPos|
            #![trigger all.contains(pos)]
            all.contains(pos) <==> exists|i: int|
                0 <= i < n && #[trigger] g.enclosed_at(i, player_id) && g.pos_at(i) == pos by {
            if all.contains(pos) {
                let k = choose|k: int| 0 <= k < all.len() && all[k] == pos;
                if k < rest.len() {
                    assert(rest[k] == pos);
                    assert(rest.contains(pos));
                    let i = choose|i: int|
                        0 <= i < n - 1 && #[trigger] g.enclosed_at(i, player_id) && g.pos_at(i)
                            == pos;
                    assert(0 <= i < n && g.enclosed_at(i, player_id) && g.pos_at(i) == pos);
                } else {
                    assert(g.enclosed_at(n - 1, player_id) && g.pos_at(n - 1) == pos);
                }
            }
            if exists|i: int|
                0 <= i < n && #[trigger] g.enclosed_at(i, player_id) && g.pos_at(i) == pos {
                let i = choose|i: int|
                    0 <= i < n && #[trigger] g.enclosed_at(i, player_id) && g.pos_at(i) == pos;
                if i < n - 1 {
                    assert(rest.contains(pos));
                    let k = choose|k: int| 0 <= k < rest.len() && rest[k] == pos;
                    assert(all[k] == pos);
                } else {
                    assert(all[rest.len() as int] == pos);
                }
            }
        }
    }
}

/// A position is listed among the enclosed cells exactly when it is
/// enclosed.
pub proof fn law_enclosed_cells_exact(g: GridView, player_id: PlayerId, pos: GridPos)
    requires
        g.cells.len() == g.width * g.height,
    ensures
        g.enclosed_cells(player_id).contains(pos) <==> g.enclosed(pos, player_id),
{
    lemma_enclosed_below_members(g, player_id, g.cells.len() as int);
    if g.enclosed(pos, player_id) {
        lemma_index_roundtrip(g, pos);
        assert(g.enclosed_at(g.index_of(pos), player_id));
    }
}

/// Taking the enclosed cells one by one fills the enclosure.
pub proof fn lemma_mark_enclosed_is_fill(g: GridView, player_id: PlayerId)
    requires
        g.cells.len() == g.width * g.height,
    ensures
        g.mark_trail(player_id, g.enclosed_cells(player_id)) == g.fill_enclosed(player_id),
{
    let cells = g.enclosed_cells(player_id);
    let marked = g.mark_trail(player_id, cells);
    let filled = g.fill_enclosed(player_id);
    lemma_assign_cells(g, Some(player_id), cells);
    lemma_enclosed_below_members(g, player_id, g.cells.len() as int);
    assert forall|i: int| 0 <= i < g.cells.len() implies marked.cells[i] == filled.cells[i] by {
        let hit = exists|k: int|
            0 <= k < cells.len() && g.in_bounds(#[trigger] cells[k]) && g.index_of(cells[k]) == i;
        if g.enclosed_at(i, player_id) {
            lemma_pos_roundtrip(g, i);
            assert(cells.contains(g.pos_at(i)));
            let k = choose|k: int| 0 <= k < cells.len() && cells[k] == g.pos_at(i);
            assert(g.in_bounds(cells[k]) && g.index_of(cells[k]) == i);
        }
        if hit {
            let k = choose|k: int|
                0 <= k < cells.len() && g.in_bounds(#[trigger] cells[k]) && g.index_of(cells[k])
                    == i;
            assert(cells.contains(cells[k]));
            let j = choose|j: int|
                0 <= j < g.cells.len() && #[trigger] g.enclosed_at(j, player_id) && g.pos_at(j)
                    == cells[k];
            lemma_pos_roundtrip(g, j);
        }
    }
    assert(marked.cells =~= filled.cells);
}

/// The running state of a claim: `cells` have been visited on a grid that
/// was `before`, and the tallies say what changed so far.
pub open spec fn claim_progress(
    before: GridView,
    now: GridView,
    player_id: PlayerId,
    cells: Seq<GridPos>,
    result: ClaimResult,
) -> bool {
    &&& before.cells.len() == before.width * before.height
    &&& now == before.mark_trail(player_id, cells)
    &&& now.cells.len() == before.cells.len()
    &&& forall|i: int|
        0 <= i < now.cells.len() ==> #[trigger] now.cells[i] == before.cells[i] || now.cells[i]
            == Some(player_id)
    &&& result.cells_claimed == count_gained(before, now, player_id)
    &&& result.cells_stolen == count_stolen(before, now, player_id)
    &&& result.victims@ == before.robbed(player_id, cells)
    &&& forall|i: int|
        0 <= i < now.cells.len() && (#[trigger] before.cells[i]).is_some() && before.cells[i]
            != Some(player_id) && now.cells[i] == Some(player_id) ==> result.victims@.contains(
            before.cells[i].unwrap(),
        )
}

/// Whether `id` occurs in `ids`.
pub fn contains_id(ids: &Vec<PlayerId>, id: PlayerId) -> (found: bool)
    ensures
        found == ids@.contains(id),
{
    let mut i: usize = 0;
    while i < ids.len()
        invariant
            i <= ids@.len(),
            forall|k: int| 0 <= k < i ==> ids@[k] != id,
        decreases ids@.len() - i,
    {
        if ids[i] == id {
            return true;
        }
        i += 1;
    }
    false
}

/// Hands one cell to `player_id` and keeps the tallies.
fn claim_cell(
    territory: &mut TerritoryGrid,
    player_id: PlayerId,
    pos: &GridPos,
    result: &mut ClaimResult,
    Ghost(before): Ghost<GridView>,
    Ghost(cells): Ghost<Seq<GridPos>>,
)
    requires
        claim_progress(before, old(territory)@, player_id, cells, *old(result)),
    ensures
        claim_progress(before, final(territory)@, player_id, cells.push(*pos), *final(result)),
{
    let ghost now = territory@;
    let ghost tally = *result;
    proof {
        assert(cells.push(*pos).drop_last() =~= cells);
        lemma_assign_cells(before, Some(player_id), cells);
        lemma_count_pairs_bound(before.cells, now.cells, is_gain(player_id));
        lemma_count_pairs_bound(before.cells, now.cells, is_theft(player_id));
    }
    if territory.in_bounds(pos) {
        let previous = territory.get_cell_owner(pos);
        let total = territory.get_total_cells();
        proof {
            lemma_index_roundtrip(now, *pos);
            lemma_index_roundtrip(before, *pos);
            let at = now.index_of(*pos);
            assert(now.cells[at] == before.cells[at] || now.cells[at] == Some(player_id));
            lemma_count_pairs_update(
                before.cells,
                now.cells,
                is_gain(player_id),
                at,
                Some(player_id),
            );
            lemma_count_pairs_update(
                before.cells,
                now.cells,
                is_theft(player_id),
                at,
                Some(player_id),
            );
            lemma_count_pairs_bound(
                before.cells,
                now.cells.update(at, Some(player_id)),
                is_gain(player_id),
            );
            lemma_count_pairs_bound(
                before.cells,
                now.cells.update(at, Some(player_id)),
                is_theft(player_id),
            );
        }
        match previous {
            Some(owner) => {
                if owner != player_id {
                    result.cells_stolen += 1;
                    if !contains_id(&result.victims, owner) {
                        result.victims.push(owner);
                    }
                    result.cells_claimed += 1;
                }
            },
            None => {
                result.cells_claimed += 1;
            },
        }
        territory.set_cell_owner(pos, Some(player_id));
        proof {
            let at = now.index_of(*pos);
            let after = territory@;
            assert(after.cells == now.cells.update(at, Some(player_id)));
            assert forall|i: int|
                0 <= i < after.cells.len() && (#[trigger] before.cells[i]).is_some()
                    && before.cells[i] != Some(player_id) && after.cells[i] == Some(
                    player_id,
                ) implies result.victims@.contains(before.cells[i].unwrap()) by {
                let o = before.cells[i].unwrap();
                if i != at {
                    assert(now.cells[i] == Some(player_id));
                    assert(tally.victims@.contains(o));
                    let k = choose|k: int| 0 <= k < tally.victims@.len() && tally.victims@[k] == o;
                    assert(result.victims@[k] == o);
                } else {
                    if now.cells[at] == Some(player_id) {
                        assert(tally.victims@.contains(o));
                    } else {
                        assert(previous == Some(o));
                        if !tally.victims@.contains(o) {
                            assert(result.victims@[tally.victims@.len() as int] == o);
                        }
                    }
                }
            }
            if before.owner(*pos).is_some() && before.owner(*pos) != Some(player_id) {
                let o = before.owner(*pos).unwrap();
                if now.cells[at] == Some(player_id) {
                    assert(tally.victims@.contains(o));
                }
            }
        }
    }
}

/// Turns a completed trail into territory. Every trail cell inside the grid
/// becomes the player's; then every cell that the player's territory cuts
/// off from the border does. The result counts the cells gained, the cells
/// taken from others, and names the others. An empty trail changes
/// nothing.
pub fn claim_territory(territory: &mut TerritoryGrid, player_id: PlayerId, trail: &[GridPos]) -> (result:
    ClaimResult)
    ensures
        final(territory)@ == old(territory)@.claimed_by(player_id, trail@),
        result.cells_claimed == count_gained(old(territory)@, final(territory)@, player_id),
        result.cells_stolen == count_stolen(old(territory)@, final(territory)@, player_id),
        result.victims@ == old(territory)@.robbed(
            player_id,
            old(territory)@.claim_order(player_id, trail@),
        ),
        trail@.len() == 0 ==> result.cells_claimed == 0 && result.cells_stolen == 0
            && result.victims@.len() == 0,
{
    let ghost before = territory@;
    let mut result = ClaimResult::default();
    let total = territory.get_total_cells();
    proof {
        lemma_count_pairs_none(before.cells, before.cells, is_gain(player_id));
        lemma_count_pairs_none(before.cells, before.cells, is_theft(player_id));
    }
    if trail.len() == 0 {
        return result;
    }
    let mut i: usize = 0;
    while i < trail.len()
        invariant
            i <= trail@.len(),
            claim_progress(before, territory@, player_id, trail@.take(i as int), result),
        decreases trail@.len() - i,
    {
        proof {
            assert(trail@.take(i + 1) =~= trail@.take(i as int).push(trail@[i as int]));
        }
        claim_cell(territory, player_id, &trail[i], &mut result, Ghost(before), Ghost(trail@.take(i as int)));
        i += 1;
    }
    let ghost marked = territory@;
    let enclosed = flood_fill_from_edges(territory, player_id);
    proof {
        assert(trail@.take(i as int) =~= trail@);
        lemma_assign_cells(before, Some(player_id), trail@);
    }
    let mut j: usize = 0;
    while j < enclosed.len()
        invariant
            j <= enclosed@.len(),
            marked == before.mark_trail(player_id, trail@),
            enclosed@ == marked.enclosed_cells(player_id),
            claim_progress(
                before,
                territory@,
                player_id,
                trail@ + enclosed@.take(j as int),
                result,
            ),
        decreases enclosed@.len() - j,
    {
        proof {
            assert(trail@ + enclosed@.take(j + 1) =~= (trail@ + enclosed@.take(j as int)).push(
                enclosed@[j as int],
            ));
        }
        claim_cell(
            territory,
            player_id,
            &enclosed[j],
            &mut result,
            Ghost(before),
            Ghost(trail@ + enclosed@.take(j as int)),
        );
        j += 1;
    }
    proof {
        assert(enclosed@.take(j as int) =~= enclosed@);
        lemma_assign_concat(before, Some(player_id), trail@, enclosed@);
        lemma_mark_enclosed_is_fill(marked, player_id);
    }
    result
}

} // verus!
