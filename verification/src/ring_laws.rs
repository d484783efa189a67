use vstd::prelude::*;
use crate::flood::lemma_border_reaches;
use crate::flood::lemma_reach_step;
use crate::game::PlayerId;
use crate::grid::adjacent;
use crate::grid::GridPos;
use crate::territory::GridView;

verus! {

/// A rectangle of cells, by its first and last column and row.
pub struct Rect {
    pub x0: int,
    pub x1: int,
    pub y0: int,
    pub y1: int,
}

impl Rect {
    /// Whether `pos` lies in the rectangle.
    pub open spec fn holds(self, pos: GridPos) -> bool {
        self.x0 <= pos.x <= self.x1 && self.y0 <= pos.y <= self.y1
    }

    /// Whether `pos` lies on the outline of the rectangle.
    pub open spec fn on_ring(self, pos: GridPos) -> bool {
        self.holds(pos) && (pos.x == self.x0 || pos.x == self.x1 || pos.y == self.y0 || pos.y
            == self.y1)
    }

    /// Whether `pos` lies in the rectangle and not on its outline.
    pub open spec fn inside(self, pos: GridPos) -> bool {
        self.x0 < pos.x < self.x1 && self.y0 < pos.y < self.y1
    }

    /// Whether the rectangle lies within the grid.
    pub open spec fn fits(self, g: GridView) -> bool {
        0 <= self.x0 <= self.x1 < g.width && 0 <= self.y0 <= self.y1 < g.height
    }

    /// Whether `pos` lies on the outline but in none of its corners.
    pub open spec fn on_side(self, pos: GridPos) -> bool {
        ||| (self.x0 < pos.x < self.x1 && (pos.y == self.y0 || pos.y == self.y1))
        ||| (self.y0 < pos.y < self.y1 && (pos.x == self.x0 || pos.x == self.x1))
    }
}

/// A walk that starts outside the inner cells of a rectangle and ends on
/// one of them enters them somewhere.
proof fn lemma_path_enters(r: Rect, path: Seq<GridPos>, n: int) -> (k: int)
    requires
        0 <= n < path.len(),
        !r.inside(path[0]),
        r.inside(path[n]),
    ensures
        1 <= k <= n,
        r.inside(path[k]),
        !r.inside(path[k - 1]),
    decreases n,
{
    if r.inside(path[n - 1]) {
        lemma_path_enters(r, path, n - 1)
    } else {
        n
    }
}

/// A closed loop encloses what lies inside it: where a player owns the
/// whole outline of a rectangle, every inner cell that is not the player's
/// own is enclosed.
pub proof fn law_ring_encloses_interior(g: GridView, player_id: PlayerId, r: Rect, pos: GridPos)
    requires
        r.fits(g),
        forall|p: GridPos| #[trigger] r.on_ring(p) ==> g.is_owned_by(p, player_id),
        r.inside(pos),
        !g.is_owned_by(pos, player_id),
    ensures
        g.enclosed(pos, player_id),
{
    if g.reaches_border(pos, player_id) {
        let path = choose|path: Seq<GridPos>| #[trigger]
            g.is_escape_path(path, player_id) && path.last() == pos;
        let k = lemma_path_enters(r, path, path.len() - 1);
        assert(adjacent(path[k - 1], path[k - 1 + 1]));
        assert(g.passable(path[k - 1], player_id));
        assert(r.on_ring(path[k - 1]));
    }
}

/// A cell from which the way up the column is free reaches the border.
proof fn lemma_walk_up(g: GridView, player_id: PlayerId, pos: GridPos)
    requires
        g.in_bounds(pos),
        forall|p: GridPos| #[trigger]
            g.in_bounds(p) && p.x == pos.x && p.y <= pos.y ==> !g.is_owned_by(p, player_id),
    ensures
        g.reaches_border(pos, player_id),
    decreases pos.y,
{
    assert(g.in_bounds(pos) && pos.x == pos.x && pos.y <= pos.y);
    if pos.y == 0 {
        lemma_border_reaches(g, player_id, pos);
    } else {
        let above = GridPos { x: pos.x, y: (pos.y - 1) as i32 };
        assert forall|p: GridPos| #[trigger]
            g.in_bounds(p) && p.x == above.x && p.y <= above.y implies !g.is_owned_by(
            p,
            player_id,
        ) by {
            assert(g.in_bounds(p) && p.x == pos.x && p.y <= pos.y);
        }
        lemma_walk_up(g, player_id, above);
        lemma_reach_step(g, player_id, above, pos);
    }
}

/// A cell from which the way left along the row is free reaches the border.
proof fn lemma_walk_left(g: GridView, player_id: PlayerId, pos: GridPos)
    requires
        g.in_bounds(pos),
        forall|p: GridPos| #[trigger]
            g.in_bounds(p) && p.y == pos.y && p.x <= pos.x ==> !g.is_owned_by(p, player_id),
    ensures
        g.reaches_border(pos, player_id),
    decreases pos.x,
{
    assert(g.in_bounds(pos) && pos.y == pos.y && pos.x <= pos.x);
    if pos.x == 0 {
        lemma_border_reaches(g, player_id, pos);
    } else {
        let beside = GridPos { x: (pos.x - 1) as i32, y: pos.y };
        assert forall|p: GridPos| #[trigger]
            g.in_bounds(p) && p.y == beside.y && p.x <= beside.x implies !g.is_owned_by(
            p,
            player_id,
        ) by {
            assert(g.in_bounds(p) && p.y == pos.y && p.x <= pos.x);
        }
        lemma_walk_left(g, player_id, beside);
        lemma_reach_step(g, player_id, beside, pos);
    }
}

/// Where a player owns nothing outside a rectangle, every cell outside it
/// reaches the border.
pub proof fn lemma_outside_escapes(g: GridView, player_id: PlayerId, r: Rect, pos: GridPos)
    requires
        forall|p: GridPos| #[trigger] g.is_owned_by(p, player_id) ==> r.holds(p),
        g.in_bounds(pos),
        !r.holds(pos),
    ensures
        g.reaches_border(pos, player_id),
{
    if pos.x < r.x0 || pos.x > r.x1 {
        assert forall|p: GridPos| #[trigger]
            g.in_bounds(p) && p.x == pos.x && p.y <= pos.y implies !g.is_owned_by(
            p,
            player_id,
        ) by {
            if g.is_owned_by(p, player_id) {
                assert(r.holds(p));
            }
        }
        lemma_walk_up(g, player_id, pos);
    } else {
        assert forall|p: GridPos| #[trigger]
            g.in_bounds(p) && p.y == pos.y && p.x <= pos.x implies !g.is_owned_by(
            p,
            player_id,
        ) by {
            if g.is_owned_by(p, player_id) {
                assert(r.holds(p));
            }
        }
        lemma_walk_left(g, player_id, pos);
    }
}

/// A closed loop encloses exactly what lies inside it: where a player owns
/// the whole outline of a rectangle and nothing outside the rectangle, the
/// enclosed cells are the inner cells that are not the player's own. The
/// outline of five by five cells thus encloses the nine cells within.
pub proof fn law_ring_encloses_exactly(g: GridView, player_id: PlayerId, r: Rect, pos: GridPos)
    requires
        r.fits(g),
        forall|p: GridPos| #[trigger] r.on_ring(p) ==> g.is_owned_by(p, player_id),
        forall|p: GridPos| #[trigger] g.is_owned_by(p, player_id) ==> r.holds(p),
    ensures
        g.enclosed(pos, player_id) <==> (r.inside(pos) && !g.is_owned_by(pos, player_id)),
{
    if r.inside(pos) && !g.is_owned_by(pos, player_id) {
        law_ring_encloses_interior(g, player_id, r, pos);
    }
    if g.enclosed(pos, player_id) {
        if !r.holds(pos) {
            lemma_outside_escapes(g, player_id, r, pos);
        } else if !r.inside(pos) {
            assert(r.on_ring(pos));
        }
    }
}

/// Inside a rectangle whose inner cells the player does not own, a cell
/// reaches the border as soon as one inner cell does.
proof fn lemma_interior_connected(
    g: GridView,
    player_id: PlayerId,
    r: Rect,
    from: GridPos,
    pos: GridPos,
)
    requires
        r.fits(g),
        forall|p: GridPos| #[trigger] r.inside(p) ==> !g.is_owned_by(p, player_id),
        r.inside(from),
        r.inside(pos),
        g.reaches_border(from, player_id),
    ensures
        g.reaches_border(pos, player_id),
    decreases pos.spec_distance(from),
{
    if pos != from {
        let nearer = if pos.x > from.x {
            GridPos { x: (pos.x - 1) as i32, y: pos.y }
        } else if pos.x < from.x {
            GridPos { x: (pos.x + 1) as i32, y: pos.y }
        } else if pos.y > from.y {
            GridPos { x: pos.x, y: (pos.y - 1) as i32 }
        } else {
            GridPos { x: pos.x, y: (pos.y + 1) as i32 }
        };
        assert(r.inside(nearer));
        lemma_interior_connected(g, player_id, r, from, nearer);
        assert(r.inside(pos));
        lemma_reach_step(g, player_id, nearer, pos);
    }
}

/// Whether a one-cell margin around the rectangle lies within the grid.
pub open spec fn has_margin(r: Rect, g: GridView) -> bool {
    &&& r.fits(g)
    &&& 0 < r.x0
    &&& 0 < r.y0
    &&& r.x1 + 1 < g.width
    &&& r.y1 + 1 < g.height
    &&& r.x1 < i32::MAX
    &&& r.y1 < i32::MAX
}

/// The neighbour of an outline cell that lies outside the rectangle.
pub open spec fn outward(r: Rect, pos: GridPos) -> GridPos {
    if pos.y == r.y0 {
        GridPos { x: pos.x, y: (pos.y - 1) as i32 }
    } else if pos.y == r.y1 {
        GridPos { x: pos.x, y: (pos.y + 1) as i32 }
    } else if pos.x == r.x0 {
        GridPos { x: (pos.x - 1) as i32, y: pos.y }
    } else {
        GridPos { x: (pos.x + 1) as i32, y: pos.y }
    }
}

/// The neighbour of a side cell that lies inside the rectangle.
pub open spec fn inward(r: Rect, pos: GridPos) -> GridPos {
    if pos.y == r.y0 {
        GridPos { x: pos.x, y: (pos.y + 1) as i32 }
    } else if pos.y == r.y1 {
        GridPos { x: pos.x, y: (pos.y - 1) as i32 }
    } else if pos.x == r.x0 {
        GridPos { x: (pos.x + 1) as i32, y: pos.y }
    } else {
        GridPos { x: (pos.x - 1) as i32, y: pos.y }
    }
}

/// A cell of the outline that the player does not own reaches the border
/// through its neighbour outside the rectangle.
proof fn lemma_ring_cell_escapes(g: GridView, player_id: PlayerId, r: Rect, pos: GridPos)
    requires
        has_margin(r, g),
        forall|p: GridPos| #[trigger] g.is_owned_by(p, player_id) ==> r.holds(p),
        r.on_ring(pos),
        g.passable(pos, player_id),
    ensures
        g.reaches_border(pos, player_id),
{
    let outer = outward(r, pos);
    assert(g.in_bounds(outer));
    assert(!r.holds(outer));
    assert(adjacent(outer, pos));
    lemma_outside_escapes(g, player_id, r, outer);
    lemma_reach_step(g, player_id, outer, pos);
}

/// An open loop encloses nothing: where a player owns cells on the outline
/// of a rectangle only, and one cell of a side of the outline is not the
/// player's, no cell of the grid is enclosed. The rectangle is to leave a
/// margin of one cell to the edges of the grid.
pub proof fn law_open_ring_encloses_nothing(
    g: GridView,
    player_id: PlayerId,
    r: Rect,
    gap: GridPos,
    pos: GridPos,
)
    requires
        has_margin(r, g),
        forall|p: GridPos| #[trigger] g.is_owned_by(p, player_id) ==> r.on_ring(p),
        r.on_side(gap),
        !g.is_owned_by(gap, player_id),
    ensures
        !g.enclosed(pos, player_id),
{
    assert forall|p: GridPos| #[trigger] g.is_owned_by(p, player_id) implies r.holds(p) by {
        assert(r.on_ring(p));
    }
    assert forall|p: GridPos| #[trigger] r.inside(p) implies !g.is_owned_by(p, player_id) by {
        if g.is_owned_by(p, player_id) {
            assert(r.on_ring(p));
        }
    }
    if g.passable(pos, player_id) {
        if !r.holds(pos) {
            lemma_outside_escapes(g, player_id, r, pos);
        } else if r.on_ring(pos) {
            lemma_ring_cell_escapes(g, player_id, r, pos);
        } else {
            let inner = inward(r, gap);
            assert(r.on_ring(gap));
            lemma_ring_cell_escapes(g, player_id, r, gap);
            assert(r.inside(pos));
            assert(r.inside(inner));
            assert(adjacent(gap, inner));
            lemma_reach_step(g, player_id, gap, inner);
            lemma_interior_connected(g, player_id, r, inner, pos);
        }
    }
}

} // verus!
