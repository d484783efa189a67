use vstd::prelude::*;
use std::collections::VecDeque;
use crate::game::PlayerId;
use crate::grid::adjacent;
use crate::grid::Direction;
use crate::grid::GridPos;
use crate::territory::GridView;
use crate::territory::TerritoryGrid;
use crate::territory::lemma_index_roundtrip;

verus! {

impl GridView {
    /// A cell that the flood may pass: inside the grid and not owned by
    /// `player_id`.
    pub open spec fn passable(self, pos: GridPos, player_id: PlayerId) -> bool {
        self.in_bounds(pos) && self.owner(pos) != Some(player_id)
    }

    /// A cell in the first or last row or column.
    pub open spec fn on_border(self, pos: GridPos) -> bool {
        self.in_bounds(pos) && (pos.x == 0 || pos.y == 0 || pos.x == self.width - 1 || pos.y
            == self.height - 1)
    }

    /// A walk that starts on the border, moves between adjacent cells, and
    /// never touches a cell of `player_id`.
    pub open spec fn is_escape_path(self, path: Seq<GridPos>, player_id: PlayerId) -> bool {
        &&& path.len() > 0
        &&& self.on_border(path[0])
        &&& forall|k: int| 0 <= k < path.len() ==> self.passable(#[trigger] path[k], player_id)
        &&& forall|k: int| 0 <= k < path.len() - 1 ==> adjacent(path[k], #[trigger] path[k + 1])
    }

    /// Whether `pos` can be reached from the border without crossing a cell
    /// of `player_id`.
    pub open spec fn reaches_border(self, pos: GridPos, player_id: PlayerId) -> bool {
        exists|path: Seq<GridPos>| #[trigger]
            self.is_escape_path(path, player_id) && path.last() == pos
    }

    /// A cell that `player_id` does not own and that its cells cut off from
    /// the border.
    pub open spec fn enclosed(self, pos: GridPos, player_id: PlayerId) -> bool {
        self.passable(pos, player_id) && !self.reaches_border(pos, player_id)
    }

    /// Whether the cell at index `i` is enclosed by `player_id`.
    pub open spec fn enclosed_at(self, i: int, player_id: PlayerId) -> bool {
        self.nameable(i) && self.enclosed(self.pos_at(i), player_id)
    }

    /// The enclosed cells among the first `n`, row by row, left to right.
    pub open spec fn enclosed_below(self, player_id: PlayerId, n: int) -> Seq<GridPos>
        decreases n,
    {
        if n <= 0 {
            Seq::empty()
        } else if self.enclosed_at(n - 1, player_id) {
            self.enclosed_below(player_id, n - 1).push(self.pos_at(n - 1))
        } else {
            self.enclosed_below(player_id, n - 1)
        }
    }

    /// Every cell enclosed by `player_id`, row by row, left to right.
    pub open spec fn enclosed_cells(self, player_id: PlayerId) -> Seq<GridPos> {
        self.enclosed_below(player_id, self.cells.len() as int)
    }
}

/// Whether the flood has marked the cell at `pos`.
pub open spec fn marked(g: GridView, reached: Seq<bool>, pos: GridPos) -> bool {
    g.in_bounds(pos) && reached[g.index_of(pos)]
}

/// Every mark sits on a passable cell that reaches the border.
pub open spec fn marks_sound(g: GridView, player_id: PlayerId, reached: Seq<bool>) -> bool {
    forall|i: int|
        0 <= i < reached.len() && #[trigger] reached[i] ==> {
            &&& g.nameable(i)
            &&& g.passable(g.pos_at(i), player_id)
            &&& g.reaches_border(g.pos_at(i), player_id)
        }
}

/// Every passable border cell is marked.
pub open spec fn border_marked(g: GridView, player_id: PlayerId, reached: Seq<bool>) -> bool {
    forall|pos: GridPos| #[trigger]
        g.on_border(pos) && g.passable(pos, player_id) ==> marked(g, reached, pos)
}

/// From every marked cell that is not waiting in `pending`, the passable
/// neighbours are marked too.
pub open spec fn spread_done(
    g: GridView,
    player_id: PlayerId,
    reached: Seq<bool>,
    pending: Seq<GridPos>,
) -> bool {
    forall|a: GridPos, b: GridPos|
        marked(g, reached, a) && !pending.contains(a) && #[trigger] adjacent(a, b) && g.passable(
            b,
            player_id,
        ) ==> marked(g, reached, b)
}

/// Number of cells not yet marked.
pub open spec fn unmarked(reached: Seq<bool>) -> nat
    decreases reached.len(),
{
    if reached.len() == 0 {
        0
    } else {
        unmarked(reached.drop_last()) + if reached.last() {
            0nat
        } else {
            1nat
        }
    }
}

proof fn lemma_unmarked_update(reached: Seq<bool>, i: int)
    requires
        0 <= i < reached.len(),
        !reached[i],
    ensures
        unmarked(reached.update(i, true)) + 1 == unmarked(reached),
    decreases reached.len(),
{
    let after = reached.update(i, true);
    if i == reached.len() - 1 {
        assert(after.drop_last() =~= reached.drop_last());
    } else {
        assert(after.drop_last() =~= reached.drop_last().update(i, true));
        lemma_unmarked_update(reached.drop_last(), i);
    }
}

/// One more step along a passable neighbour keeps the border in reach.
pub proof fn lemma_reach_step(g: GridView, player_id: PlayerId, a: GridPos, b: GridPos)
    requires
        g.reaches_border(a, player_id),
        adjacent(a, b),
        g.passable(b, player_id),
    ensures
        g.reaches_border(b, player_id),
{
    let path = choose|path: Seq<GridPos>| #[trigger]
        g.is_escape_path(path, player_id) && path.last() == a;
    let longer = path.push(b);
    assert forall|k: int| 0 <= k < longer.len() implies g.passable(
        #[trigger] longer[k],
        player_id,
    ) by {
        if k < path.len() {
            assert(longer[k] == path[k]);
        }
    }
    assert forall|k: int| 0 <= k < longer.len() - 1 implies adjacent(
        longer[k],
        #[trigger] longer[k + 1],
    ) by {
        if k < path.len() - 1 {
            assert(longer[k] == path[k]);
            assert(longer[k + 1] == path[k + 1]);
        }
    }
    assert(g.is_escape_path(longer, player_id) && longer.last() == b);
}

/// A passable border cell reaches the border by standing on it.
pub proof fn lemma_border_reaches(g: GridView, player_id: PlayerId, pos: GridPos)
    requires
        g.on_border(pos),
        g.passable(pos, player_id),
    ensures
        g.reaches_border(pos, player_id),
{
    let path = seq![pos];
    assert(g.is_escape_path(path, player_id) && path.last() == pos);
}

/// Once the flood has nothing left to spread, every cell on an escape path
/// is marked.
proof fn lemma_path_marked(
    g: GridView,
    player_id: PlayerId,
    reached: Seq<bool>,
    path: Seq<GridPos>,
    k: int,
)
    requires
        border_marked(g, player_id, reached),
        spread_done(g, player_id, reached, Seq::empty()),
        g.is_escape_path(path, player_id),
        0 <= k < path.len(),
    ensures
        marked(g, reached, path[k]),
    decreases k,
{
    if k == 0 {
        assert(g.on_border(path[0]) && g.passable(path[0], player_id));
    } else {
        lemma_path_marked(g, player_id, reached, path, k - 1);
        assert(adjacent(path[k - 1], path[k - 1 + 1]));
        assert(g.passable(path[k], player_id));
        assert(!Seq::<GridPos>::empty().contains(path[k - 1]));
    }
}

/// When the flood is complete, the marks are exactly the passable cells
/// that reach the border.
proof fn lemma_marks_exact(g: GridView, player_id: PlayerId, reached: Seq<bool>, pos: GridPos)
    requires
        g.cells.len() == g.width * g.height,
        reached.len() == g.cells.len(),
        marks_sound(g, player_id, reached),
        border_marked(g, player_id, reached),
        spread_done(g, player_id, reached, Seq::empty()),
        g.in_bounds(pos),
    ensures
        reached[g.index_of(pos)] <==> g.reaches_border(pos, player_id),
{
    lemma_index_roundtrip(g, pos);
    if g.reaches_border(pos, player_id) {
        let path = choose|path: Seq<GridPos>| #[trigger]
            g.is_escape_path(path, player_id) && path.last() == pos;
        lemma_path_marked(g, player_id, reached, path, path.len() - 1);
    }
}

/// The four cells next to `pos`: left, right, above, below.
pub fn get_neighbors(pos: &GridPos) -> (neighbors: [GridPos; 4])
    requires
        i32::MIN < pos.x < i32::MAX,
        i32::MIN < pos.y < i32::MAX,
    ensures
        neighbors@ == seq![
            pos.spec_moved(Direction::Left),
            pos.spec_moved(Direction::Right),
            pos.spec_moved(Direction::Up),
            pos.spec_moved(Direction::Down),
        ],
        forall|other: GridPos| adjacent(*pos, other) <==> neighbors@.contains(other),
{
    let neighbors = [pos.offset(-1, 0), pos.offset(1, 0), pos.offset(0, -1), pos.offset(0, 1)];
    proof {
        assert(neighbors@ =~= seq![
            pos.spec_moved(Direction::Left),
            pos.spec_moved(Direction::Right),
            pos.spec_moved(Direction::Up),
            pos.spec_moved(Direction::Down),
        ]);
        assert forall|other: GridPos| adjacent(*pos, other) <==> neighbors@.contains(other) by {
            if adjacent(*pos, other) {
                let k: int = if other.x == pos.x - 1 {
                    0
                } else if other.x == pos.x + 1 {
                    1
                } else if other.y == pos.y - 1 {
                    2
                } else {
                    3
                };
                assert(neighbors@[k] == other);
            }
            if neighbors@.contains(other) {
                let k = choose|k: int| 0 <= k < 4 && neighbors@[k] == other;
            }
        }
    }
    neighbors
}

/// Marks `pos` and queues it, if the flood may pass it and has not been
/// there.
fn spread_to(
    territory: &TerritoryGrid,
    player_id: PlayerId,
    pos: GridPos,
    reached: &mut Vec<bool>,
    queue: &mut VecDeque<GridPos>,
)
    requires
        old(reached)@.len() == territory@.cells.len(),
    ensures
        territory@.passable(pos, player_id) && !old(reached)@[territory@.index_of(pos)] ==> {
            &&& final(reached)@ == old(reached)@.update(territory@.index_of(pos), true)
            &&& final(queue)@ == old(queue)@.push(pos)
        },
        !(territory@.passable(pos, player_id) && !old(reached)@[territory@.index_of(pos)]) ==> {
            &&& final(reached)@ == old(reached)@
            &&& final(queue)@ == old(queue)@
        },
{
    match territory.pos_to_index(&pos) {
        Some(i) => {
            if !territory.is_owned_by(&pos, player_id) && !reached[i] {
                reached.set(i, true);
                queue.push_back(pos);
            }
        },
        None => {},
    }
}

/// Whether `pos` lies in the first or last row or column of the grid.
fn is_on_border(territory: &TerritoryGrid, pos: &GridPos) -> (b: bool)
    ensures
        b == territory@.on_border(*pos),
{
    if !territory.in_bounds(pos) {
        return false;
    }
    let (width, height) = territory.get_grid_dimensions();
    pos.x == 0 || pos.y == 0 || pos.x as u32 == width - 1 || pos.y as u32 == height - 1
}

/// The cells that `player_id` has cut off from the border: a flood starts
/// on every border cell that the player does not own and spreads over the
/// four neighbours of each cell it reaches, never entering a cell of the
/// player; whatever it does not reach, and the player does not own, is
/// enclosed.
pub fn flood_fill_from_edges(territory: &TerritoryGrid, player_id: PlayerId) -> (enclosed: Vec<
    GridPos,
>)
    ensures
        enclosed@ == territory@.enclosed_cells(player_id),
{
    let ghost g = territory@;
    let total = territory.get_total_cells();
    let mut reached: Vec<bool> = Vec::new();
    let mut i: usize = 0;
    while i < total
        invariant
            i <= total,
            reached@.len() == i,
            forall|k: int| 0 <= k < i ==> !reached@[k],
        decreases total - i,
    {
        reached.push(false);
        i += 1;
    }
    let mut queue: VecDeque<GridPos> = VecDeque::new();

    i = 0;
    while i < total
        invariant
            i <= total,
            g == territory@,
            g.wf(),
            total == g.cells.len(),
            reached@.len() == total,
            marks_sound(g, player_id, reached@),
            forall|k: int| i <= k < total ==> !reached@[k],
            forall|k: int|
                0 <= k < i && g.nameable(k) && g.on_border(g.pos_at(k)) && g.passable(
                    g.pos_at(k),
                    player_id,
                ) ==> #[trigger] reached@[k],
            forall|k: int|
                0 <= k < queue@.len() ==> marked(g, reached@, #[trigger] queue@[k]),
            forall|k: int|
                0 <= k < total && #[trigger] reached@[k] ==> queue@.contains(g.pos_at(k)),
        decreases total - i,
    {
        match territory.index_to_pos(i) {
            Some(pos) => {
                if is_on_border(territory, &pos) && !territory.is_owned_by(&pos, player_id) {
                    let ghost before = reached@;
                    let ghost waiting = queue@;
                    reached.set(i, true);
                    queue.push_back(pos);
                    proof {
                        lemma_border_reaches(g, player_id, pos);
                        assert forall|k: int| 0 <= k < queue@.len() implies marked(
                            g,
                            reached@,
                            #[trigger] queue@[k],
                        ) by {
                            if k < waiting.len() {
                                assert(marked(g, before, waiting[k]));
                                lemma_index_roundtrip(g, waiting[k]);
                            }
                        }
                        assert forall|k: int|
                            0 <= k < total && #[trigger] reached@[k] implies queue@.contains(
                            g.pos_at(k),
                        ) by {
                            if k == i {
                                assert(queue@[waiting.len() as int] == pos);
                            } else {
                                assert(before[k]);
                                let j = choose|j: int|
                                    0 <= j < waiting.len() && waiting[j] == g.pos_at(k);
                                assert(queue@[j] == g.pos_at(k));
                            }
                        }
                    }
                }
            },
            None => {},
        }
        i += 1;
    }
    proof {
        assert forall|pos: GridPos| #[trigger]
            g.on_border(pos) && g.passable(pos, player_id) implies marked(g, reached@, pos) by {
            lemma_index_roundtrip(g, pos);
        }
        assert forall|a: GridPos, b: GridPos|
            marked(g, reached@, a) && !queue@.contains(a) && #[trigger] adjacent(a, b)
                && g.passable(b, player_id) implies marked(g, reached@, b) by {
            lemma_index_roundtrip(g, a);
            assert(reached@[g.index_of(a)]);
        }
    }

    loop
        invariant
            g == territory@,
            g.wf(),
            total == g.cells.len(),
            reached@.len() == total,
            marks_sound(g, player_id, reached@),
            border_marked(g, player_id, reached@),
            spread_done(g, player_id, reached@, queue@),
            forall|k: int|
                0 <= k < queue@.len() ==> marked(g, reached@, #[trigger] queue@[k]),
        ensures
            queue@.len() == 0,
        decreases unmarked(reached@) + queue@.len(),
    {
        let ghost reached0 = reached@;
        let ghost queue0 = queue@;
        match queue.pop_front() {
            None => {
                break ;
            },
            Some(pos) => {
                let ghost queue1 = queue@;
                proof {
                    assert(marked(g, reached0, queue0[0]));
                    lemma_index_roundtrip(g, pos);
                    assert(reached0[g.index_of(pos)]);
                    assert forall|k: int| 0 <= k < queue1.len() implies queue1[k] == queue0[k
                        + 1] by {}
                }
                let directions = [
                    Direction::Left,
                    Direction::Right,
                    Direction::Up,
                    Direction::Down,
                ];
                let mut d: usize = 0;
                while d < 4
                    invariant
                        d <= 4,
                        g == territory@,
                        g.wf(),
                        total == g.cells.len(),
                        reached@.len() == total,
                        reached0.len() == total,
                        directions@ == seq![
                            Direction::Left,
                            Direction::Right,
                            Direction::Up,
                            Direction::Down,
                        ],
                        marked(g, reached0, pos),
                        g.reaches_border(pos, player_id),
                        marks_sound(g, player_id, reached@),
                        forall|k: int| 0 <= k < total && reached0[k] ==> #[trigger] reached@[k],
                        queue1.len() <= queue@.len(),
                        forall|k: int| 0 <= k < queue1.len() ==> #[trigger] queue@[k] == queue1[k],
                        forall|k: int|
                            queue1.len() <= k < queue@.len() ==> marked(
                                g,
                                reached@,
                                #[trigger] queue@[k],
                            ),
                        forall|k: int|
                            0 <= k < total && #[trigger] reached@[k] && !reached0[k]
                                ==> queue@.contains(g.pos_at(k)),
                        unmarked(reached@) + queue@.len() == unmarked(reached0) + queue1.len(),
                        forall|k: int|
                            #![trigger directions@[k]]
                            0 <= k < d && pos.can_move(directions@[k]) && g.passable(
                                pos.spec_moved(directions@[k]),
                                player_id,
                            ) ==> marked(g, reached@, pos.spec_moved(directions@[k])),
                    decreases 4 - d,
                {
                    let ghost reached_before = reached@;
                    let ghost queue_before = queue@;
                    match pos.checked_moved(directions[d]) {
                        Some(next) => {
                            spread_to(territory, player_id, next, &mut reached, &mut queue);
                            proof {
                                if g.passable(next, player_id) {
                                    lemma_index_roundtrip(g, next);
                                }
                                if g.passable(next, player_id) && !reached_before[g.index_of(
                                    next,
                                )] {
                                    let at = g.index_of(next);
                                    lemma_unmarked_update(reached_before, at);
                                    lemma_reach_step(g, player_id, pos, next);
                                    assert(queue@[queue_before.len() as int] == next);
                                    assert forall|k: int|
                                        queue1.len() <= k < queue@.len() implies marked(
                                        g,
                                        reached@,
                                        #[trigger] queue@[k],
                                    ) by {
                                        if k < queue_before.len() {
                                            assert(queue@[k] == queue_before[k]);
                                            assert(marked(g, reached_before, queue_before[k]));
                                            lemma_index_roundtrip(g, queue_before[k]);
                                        }
                                    }
                                    assert forall|k: int|
                                        0 <= k < total && #[trigger] reached@[k] && !reached0[k] implies queue@.contains(
                                        g.pos_at(k),
                                    ) by {
                                        if k != at {
                                            assert(reached_before[k]);
                                            let j = choose|j: int|
                                                0 <= j < queue_before.len() && queue_before[j]
                                                    == g.pos_at(k);
                                            assert(queue@[j] == g.pos_at(k));
                                        }
                                    }
                                    assert forall|k: int|
                                        #![trigger directions@[k]]
                                        0 <= k < d + 1 && pos.can_move(directions@[k])
                                            && g.passable(
                                            pos.spec_moved(directions@[k]),
                                            player_id,
                                        ) implies marked(
                                        g,
                                        reached@,
                                        pos.spec_moved(directions@[k]),
                                    ) by {
                                        if k < d {
                                            let q = pos.spec_moved(directions@[k]);
                                            assert(marked(g, reached_before, q));
                                            lemma_index_roundtrip(g, q);
                                        }
                                    }
                                }
                            }
                        },
                        None => {},
                    }
                    d += 1;
                }
                proof {
                    assert forall|a: GridPos, b: GridPos|
                        marked(g, reached@, a) && !queue@.contains(a) && #[trigger] adjacent(a, b)
                            && g.passable(b, player_id) implies marked(g, reached@, b) by {
                        lemma_index_roundtrip(g, a);
                        lemma_index_roundtrip(g, b);
                        if a == pos {
                            let k: int = if b.x == a.x - 1 {
                                0
                            } else if b.x == a.x + 1 {
                                1
                            } else if b.y == a.y - 1 {
                                2
                            } else {
                                3
                            };
                            assert(pos.can_move(directions@[k]));
                            assert(pos.spec_moved(directions@[k]) == b);
                        } else {
                            if !reached0[g.index_of(a)] {
                                assert(reached@[g.index_of(a)]);
                                assert(queue@.contains(g.pos_at(g.index_of(a))));
                            }
                            assert(marked(g, reached0, a));
                            if queue0.contains(a) {
                                let j = choose|j: int| 0 <= j < queue0.len() && queue0[j] == a;
                                assert(queue1[j - 1] == a);
                                assert(queue@[j - 1] == a);
                            }
                            assert(marked(g, reached0, b));
                            assert(reached0[g.index_of(b)]);
                        }
                    }
                    assert forall|p: GridPos| #[trigger]
                        g.on_border(p) && g.passable(p, player_id) implies marked(
                        g,
                        reached@,
                        p,
                    ) by {
                        assert(marked(g, reached0, p));
                        lemma_index_roundtrip(g, p);
                        assert(reached0[g.index_of(p)]);
                    }
                    assert forall|k: int| 0 <= k < queue@.len() implies marked(
                        g,
                        reached@,
                        #[trigger] queue@[k],
                    ) by {
                        if k < queue1.len() {
                            assert(queue@[k] == queue1[k]);
                            assert(marked(g, reached0, queue0[k + 1]));
                            lemma_index_roundtrip(g, queue@[k]);
                            assert(reached0[g.index_of(queue@[k])]);
                        }
                    }
                }
            },
        }
    }

    let mut enclosed: Vec<GridPos> = Vec::new();
    i = 0;
    proof {
        assert(queue@ =~= Seq::empty());
    }
    while i < total
        invariant
            i <= total,
            g == territory@,
            g.wf(),
            total == g.cells.len(),
            reached@.len() == total,
            marks_sound(g, player_id, reached@),
            border_marked(g, player_id, reached@),
            spread_done(g, player_id, reached@, Seq::empty()),
            enclosed@ == g.enclosed_below(player_id, i as int),
        decreases total - i,
    {
        match territory.index_to_pos(i) {
            Some(pos) => {
                proof {
                    lemma_marks_exact(g, player_id, reached@, pos);
                }
                if !reached[i] && !territory.is_owned_by(&pos, player_id) {
                    enclosed.push(pos);
                }
            },
            None => {},
        }
        i += 1;
    }
    enclosed
}

} // verus!
