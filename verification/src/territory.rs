use vstd::prelude::*;
use vstd::arithmetic::div_mod::lemma_fundamental_div_mod_converse;
use vstd::arithmetic::div_mod::lemma_fundamental_div_mod;
use vstd::arithmetic::div_mod::lemma_div_pos_is_pos;
use vstd::arithmetic::div_mod::lemma_mod_bound;
use crate::game::PlayerId;
use crate::grid::GridPos;

verus! {

/// The mathematical content of a [`TerritoryGrid`]: its dimensions and the
/// owner of every cell, stored row by row.
pub struct GridView {
    pub width: nat,
    pub height: nat,
    pub cells: Seq<Option<PlayerId>>,
}

impl GridView {
    /// The sides fit `u32`, the cell sequence covers the rectangle exactly,
    /// and only cells that a [`GridPos`] can name ever carry an owner.
    pub open spec fn wf(self) -> bool {
        &&& self.width <= u32::MAX
        &&& self.height <= u32::MAX
        &&& self.cells.len() == self.width * self.height
        &&& forall|i: int|
            0 <= i < self.cells.len() && (#[trigger] self.cells[i]).is_some() ==> self.nameable(i)
    }

    /// A `width` by `height` grid on which nobody owns anything.
    pub open spec fn unowned(width: nat, height: nat) -> GridView {
        GridView { width, height, cells: Seq::new(width * height, |i: int| None) }
    }

    pub open spec fn in_bounds(self, pos: GridPos) -> bool {
        0 <= pos.x < self.width && 0 <= pos.y < self.height
    }

    /// Row-major index of a position.
    pub open spec fn index_of(self, pos: GridPos) -> int {
        pos.y * self.width + pos.x
    }

    /// Whether the cell at index `i` has coordinates that fit a [`GridPos`].
    pub open spec fn nameable(self, i: int) -> bool {
        self.width > 0 && i % (self.width as int) <= i32::MAX && i / (self.width as int)
            <= i32::MAX
    }

    /// The position of the cell at index `i`.
    pub open spec fn pos_at(self, i: int) -> GridPos
        recommends
            self.width > 0,
            self.nameable(i),
    {
        GridPos { x: (i % (self.width as int)) as i32, y: (i / (self.width as int)) as i32 }
    }

    /// The owner of the cell at `pos`; positions outside the grid have none.
    pub open spec fn owner(self, pos: GridPos) -> Option<PlayerId> {
        if self.in_bounds(pos) {
            self.cells[self.index_of(pos)]
        } else {
            None
        }
    }

    pub open spec fn is_owned_by(self, pos: GridPos, player_id: PlayerId) -> bool {
        self.owner(pos) == Some(player_id)
    }

    /// The grid after one cell changes hands; a position outside the grid
    /// changes nothing.
    pub open spec fn with_owner(self, pos: GridPos, owner: Option<PlayerId>) -> GridView {
        if self.in_bounds(pos) {
            GridView { cells: self.cells.update(self.index_of(pos), owner), ..self }
        } else {
            self
        }
    }

    /// How many cells `player_id` owns.
    pub open spec fn count_owned_by(self, player_id: PlayerId) -> nat {
        count_owned(self.cells, player_id)
    }

    /// The positions that `player_id` owns, row by row, left to right.
    pub open spec fn owned_cells(self, player_id: PlayerId) -> Seq<GridPos> {
        self.owned_cells_below(player_id, self.cells.len() as int)
    }

    /// The owned positions among the first `n` cells.
    pub open spec fn owned_cells_below(self, player_id: PlayerId, n: int) -> Seq<GridPos>
        decreases n,
    {
        if n <= 0 {
            Seq::empty()
        } else if self.cells[n - 1] == Some(player_id) {
            self.owned_cells_below(player_id, n - 1).push(self.pos_at(n - 1))
        } else {
            self.owned_cells_below(player_id, n - 1)
        }
    }
}

/// Number of entries of `cells` that belong to `player_id`.
pub open spec fn count_owned(cells: Seq<Option<PlayerId>>, player_id: PlayerId) -> nat
    decreases cells.len(),
{
    if cells.len() == 0 {
        0
    } else {
        count_owned(cells.drop_last(), player_id) + if cells.last() == Some(player_id) {
            1nat
        } else {
            0nat
        }
    }
}

/// A position inside a `width`-wide grid and its row-major index determine
/// each other.
pub proof fn lemma_index_roundtrip(g: GridView, pos: GridPos)
    requires
        g.in_bounds(pos),
        g.cells.len() == g.width * g.height,
    ensures
        0 <= g.index_of(pos) < g.cells.len(),
        g.nameable(g.index_of(pos)),
        g.pos_at(g.index_of(pos)) == pos,
{
    let w = g.width as int;
    let i = g.index_of(pos);
    assert(i == w * pos.y + pos.x) by (nonlinear_arith)
        requires
            i == pos.y * w + pos.x,
    ;
    lemma_fundamental_div_mod_converse(i, w, pos.y as int, pos.x as int);
    assert(i < w * g.height) by (nonlinear_arith)
        requires
            i == w * pos.y + pos.x,
            0 <= pos.x < w,
            0 <= pos.y < g.height,
    ;
    assert(g.width * g.height == w * g.height) by (nonlinear_arith)
        requires
            w == g.width,
    ;
}

/// Every nameable index below the cell count is the index of the in-bounds
/// position it names.
pub proof fn lemma_pos_roundtrip(g: GridView, i: int)
    requires
        0 <= i < g.cells.len(),
        g.cells.len() == g.width * g.height,
        g.nameable(i),
    ensures
        g.in_bounds(g.pos_at(i)),
        g.index_of(g.pos_at(i)) == i,
{
    let w = g.width as int;
    lemma_fundamental_div_mod(i, w);
    lemma_mod_bound(i, w);
    lemma_div_pos_is_pos(i, w);
    let y = i / w;
    let x = i % w;
    assert(i == y * w + x) by (nonlinear_arith)
        requires
            i == w * y + x,
    ;
    assert(y < g.height) by (nonlinear_arith)
        requires
            i == y * w + x,
            0 <= x,
            i < g.width * g.height,
            w == g.width,
            w > 0,
    ;
}

/// `owned_cells_below` holds exactly the positions of the cells of
/// `player_id` under the bound.
pub proof fn lemma_owned_cells_members(g: GridView, player_id: PlayerId, n: int)
    ensures
        forall|pos: GridPos|
            #![trigger g.owned_cells_below(player_id, n).contains(pos)]
            g.owned_cells_below(player_id, n).contains(pos) <==> exists|i: int|
                0 <= i < n && #[trigger] g.cells[i] == Some(player_id) && g.pos_at(i) == pos,
    decreases n,
{
    let all = g.owned_cells_below(player_id, n);
    if n <= 0 {
        assert forall|pos: GridPos| !all.contains(pos) by {
            if all.contains(pos) {
                let k = choose|k: int| 0 <= k < all.len() && all[k] == pos;
            }
        }
    } else {
        let rest = g.owned_cells_below(player_id, n - 1);
        lemma_owned_cells_members(g, player_id, n - 1);
        assert forall|pos: GridPos|
            #![trigger all.contains(pos)]
            all.contains(pos) <==> exists|i: int|
                0 <= i < n && #[trigger] g.cells[i] == Some(player_id) && g.pos_at(i) == pos by {
            if all.contains(pos) {
                let k = choose|k: int| 0 <= k < all.len() && all[k] == pos;
                if k < rest.len() {
                    assert(rest[k] == pos);
                    assert(rest.contains(pos));
                    let i = choose|i: int|
                        0 <= i < n - 1 && #[trigger] g.cells[i] == Some(player_id) && g.pos_at(i)
                            == pos;
                    assert(0 <= i < n && g.cells[i] == Some(player_id) && g.pos_at(i) == pos);
                } else {
                    assert(g.cells[n - 1] == Some(player_id) && g.pos_at(n - 1) == pos);
                }
            }
            if exists|i: int|
                0 <= i < n && #[trigger] g.cells[i] == Some(player_id) && g.pos_at(i) == pos {
                let i = choose|i: int|
                    0 <= i < n && #[trigger] g.cells[i] == Some(player_id) && g.pos_at(i) == pos;
                if i < n - 1 {
                    assert(rest.contains(pos));
                    let k = choose|k: int| 0 <= k < rest.len() && rest[k] == pos;
                    assert(all[k] == pos);
                } else {
                    assert(all[rest.len() as int] == pos);
                }
            }
        }
    }
}

/// A player never owns more cells than there are.
pub proof fn lemma_count_bound(cells: Seq<Option<PlayerId>>, player_id: PlayerId)
    ensures
        count_owned(cells, player_id) <= cells.len(),
    decreases cells.len(),
{
    if cells.len() > 0 {
        lemma_count_bound(cells.drop_last(), player_id);
    }
}

/// The ownership map of the play field: a `width` by `height` rectangle of
/// cells, each unowned or owned by exactly one player.
#[derive(Debug)]
pub struct TerritoryGrid {
    width: u32,
    height: u32,
    cells: Vec<Option<PlayerId>>,
}

impl View for TerritoryGrid {
    type V = GridView;

    closed spec fn view(&self) -> GridView {
        GridView { width: self.width as nat, height: self.height as nat, cells: self.cells@ }
    }
}

impl TerritoryGrid {
    #[verifier::type_invariant]
    closed spec fn inv(&self) -> bool {
        self@.wf()
    }

    /// An all-unowned grid. The cell count has to fit the machine's index
    /// type.
    pub fn new(width: u32, height: u32) -> (grid: Self)
        requires
            width * height <= usize::MAX,
        ensures
            grid@.wf(),
            grid@ == GridView::unowned(width as nat, height as nat),
    {
        let total: usize = (width as usize) * (height as usize);
        let mut cells: Vec<Option<PlayerId>> = Vec::new();
        let mut i: usize = 0;
        while i < total
            invariant
                i <= total,
                cells@.len() == i,
                forall|k: int| 0 <= k < cells@.len() ==> cells@[k].is_none(),
            decreases total - i,
        {
            cells.push(None);
            i += 1;
        }
        assert(cells@ =~= GridView::unowned(width as nat, height as nat).cells);
        Self { width, height, cells }
    }

    pub fn get_grid_dimensions(&self) -> (dims: (u32, u32))
        ensures
            dims.0 == self@.width,
            dims.1 == self@.height,
    {
        (self.width, self.height)
    }

    pub fn in_bounds(&self, pos: &GridPos) -> (b: bool)
        ensures
            b == self@.in_bounds(*pos),
    {
        pos.x >= 0 && pos.y >= 0 && (pos.x as u32) < self.width && (pos.y as u32) < self.height
    }

    /// Row-major index of `pos`, or `None` outside the grid.
    pub fn pos_to_index(&self, pos: &GridPos) -> (index: Option<usize>)
        ensures
            self@.wf(),
            match index {
                Some(i) => self@.in_bounds(*pos) && i == self@.index_of(*pos) && i
                    < self@.cells.len(),
                None => !self@.in_bounds(*pos),
            },
    {
        proof {
            use_type_invariant(self);
        }
        if self.in_bounds(pos) {
            proof {
                lemma_index_roundtrip(self@, *pos);
            }
            let row: usize = pos.y as usize;
            let col: usize = pos.x as usize;
            let total: usize = self.cells.len();
            assert(0 <= row * self.width <= self@.index_of(*pos)) by (nonlinear_arith)
                requires
                    self@.index_of(*pos) == row * self.width + col,
                    0 <= row,
                    0 <= col,
                    0 <= self.width,
            ;
            Some(row * (self.width as usize) + col)
        } else {
            None
        }
    }

    pub fn get_cell_owner(&self, pos: &GridPos) -> (owner: Option<PlayerId>)
        ensures
            owner == self@.owner(*pos),
    {
        match self.pos_to_index(pos) {
            Some(i) => self.cells[i],
            None => None,
        }
    }

    pub fn set_cell_owner(&mut self, pos: &GridPos, owner: Option<PlayerId>)
        ensures
            final(self)@ == old(self)@.with_owner(*pos, owner),
            final(self)@.wf(),
            old(self)@.wf(),
    {
        proof {
            use_type_invariant(&*self);
        }
        match self.pos_to_index(pos) {
            Some(i) => {
                proof {
                    lemma_index_roundtrip(self@, *pos);
                }
                self.cells[i] = owner;
            },
            None => {},
        }
    }

    pub fn is_owned_by(&self, pos: &GridPos, player_id: PlayerId) -> (b: bool)
        ensures
            b == self@.is_owned_by(*pos, player_id),
    {
        match self.get_cell_owner(pos) {
            Some(id) => id == player_id,
            None => false,
        }
    }

    pub fn count_owned_by(&self, player_id: PlayerId) -> (n: usize)
        ensures
            n == self@.count_owned_by(player_id),
    {
        let mut n: usize = 0;
        let mut i: usize = 0;
        while i < self.cells.len()
            invariant
                i <= self.cells@.len(),
                n == count_owned(self.cells@.take(i as int), player_id),
                n <= i,
            decreases self.cells@.len() - i,
        {
            assert(self.cells@.take(i + 1).drop_last() =~= self.cells@.take(i as int));
            let hit = match self.cells[i] {
                Some(id) => id == player_id,
                None => false,
            };
            if hit {
                n += 1;
            }
            i += 1;
        }
        assert(self.cells@.take(i as int) =~= self.cells@);
        n
    }

    pub fn get_total_cells(&self) -> (n: usize)
        ensures
            n == self@.cells.len(),
            self@.wf(),
    {
        proof {
            use_type_invariant(self);
        }
        self.cells.len()
    }

    /// The position of the cell at index `i`, where a [`GridPos`] can name it.
    pub fn index_to_pos(&self, i: usize) -> (pos: Option<GridPos>)
        requires
            i < self@.cells.len(),
        ensures
            self@.wf(),
            match pos {
                Some(p) => self@.nameable(i as int) && p == self@.pos_at(i as int)
                    && self@.in_bounds(p) && self@.index_of(p) == i,
                None => !self@.nameable(i as int),
            },
    {
        proof {
            use_type_invariant(self);
            assert(self.width > 0) by (nonlinear_arith)
                requires
                    i < self.width * self.height,
            ;
        }
        let col: usize = i % (self.width as usize);
        let row: usize = i / (self.width as usize);
        if col <= i32::MAX as usize && row <= i32::MAX as usize {
            proof {
                lemma_pos_roundtrip(self@, i as int);
            }
            Some(GridPos { x: col as i32, y: row as i32 })
        } else {
            None
        }
    }

    pub fn get_owned_cells(&self, player_id: PlayerId) -> (cells: Vec<GridPos>)
        ensures
            cells@ == self@.owned_cells(player_id),
    {
        let mut out: Vec<GridPos> = Vec::new();
        let mut i: usize = 0;
        proof {
            use_type_invariant(self);
        }
        while i < self.cells.len()
            invariant
                self@.wf(),
                i <= self@.cells.len(),
                out@ == self@.owned_cells_below(player_id, i as int),
            decreases self@.cells.len() - i,
        {
            let hit = match self.cells[i] {
                Some(id) => id == player_id,
                None => false,
            };
            if hit {
                match self.index_to_pos(i) {
                    Some(pos) => {
                        out.push(pos);
                    },
                    None => {
                        proof {
                            assert(self@.cells[i as int].is_some());
                            assert(false);
                        }
                    },
                }
            }
            i += 1;
        }
        out
    }
}

} // verus!
