use vstd::prelude::*;
use crate::collision::EliminationReason;
use crate::config::PaperioConfig;
use crate::game::PlayerId;
use crate::grid::Direction;
use crate::grid::GridPos;
use crate::player::PlayerView;
use crate::state::GameState;
use crate::state::StateView;
use crate::territory::GridView;
use crate::territory::TerritoryGrid;
use crate::territory::lemma_index_roundtrip;
use crate::territory::lemma_pos_roundtrip;

verus! {

impl PlayerView {
    /// The player taken out of the world: no trail, no heading, and the
    /// respawn countdown set.
    pub open spec fn eliminated(self, respawn_delay: u32) -> PlayerView {
        PlayerView {
            alive: false,
            trail: Seq::empty(),
            direction: Direction::Still,
            respawn_timer: respawn_delay,
            ..self
        }
    }

    /// The player put back into the world at `pos`, invulnerable for
    /// `invulnerability` ticks.
    pub open spec fn respawned(self, pos: GridPos, invulnerability: u32) -> PlayerView {
        PlayerView {
            position: pos,
            alive: true,
            direction: Direction::Still,
            trail: Seq::empty(),
            invulnerability_timer: invulnerability,
            ..self
        }
    }
}

impl StateView {
    /// The state after `id` is eliminated; an unknown id changes nothing.
    pub open spec fn eliminate(self, id: PlayerId, respawn_delay: u32) -> StateView {
        if self.players.contains_key(id) {
            StateView {
                players: self.players.insert(id, self.players[id].eliminated(respawn_delay)),
                ..self
            }
        } else {
            self
        }
    }
}

/// Takes a player out of the world, whatever the reason: it is no longer
/// alive, loses trail and heading, and waits `respawn_delay` ticks. An
/// unknown id changes nothing.
pub fn eliminate_player(
    state: &mut GameState,
    player_id: PlayerId,
    reason: EliminationReason,
    respawn_delay: u32,
)
    ensures
        final(state)@ == old(state)@.eliminate(player_id, respawn_delay),
{
    match state.get_player_mut(player_id) {
        Some(player) => {
            player.alive = false;
            player.trail.clear();
            player.direction = Direction::Still;
            player.respawn_timer = respawn_delay;
        },
        None => {},
    }
}

/// Whether `pos` lies in the square of cells at most `half` columns and
/// rows away from `center`.
pub open spec fn in_block(center: GridPos, half: int, pos: GridPos) -> bool {
    &&& center.x - half <= pos.x <= center.x + half
    &&& center.y - half <= pos.y <= center.y + half
}

impl GridView {
    /// The grid after `player_id` is granted the square block of side
    /// `size` around `center`, as far as it lies inside the grid. An even
    /// side is rounded up to the next odd one.
    pub open spec fn granted(self, player_id: PlayerId, center: GridPos, size: u32) -> GridView {
        GridView {
            cells: Seq::new(
                self.cells.len(),
                |i: int|
                    if self.nameable(i) && in_block(center, (size / 2) as int, self.pos_at(i)) {
                        Some(player_id)
                    } else {
                        self.cells[i]
                    },
            ),
            ..self
        }
    }

    /// Whether the cell in column `x` and row `y` exists and has an owner.
    pub open spec fn claimed_at(self, x: int, y: int) -> bool {
        &&& i32::MIN <= x <= i32::MAX
        &&& i32::MIN <= y <= i32::MAX
        &&& self.owner(GridPos { x: x as i32, y: y as i32 }).is_some()
    }

    /// Number of owned cells in row `y` from column `x0` up to, not
    /// including, column `x1`.
    pub open spec fn claimed_in_row(self, y: int, x0: int, x1: int) -> nat
        decreases x1 - x0,
    {
        if x1 <= x0 {
            0
        } else {
            self.claimed_in_row(y, x0, x1 - 1) + if self.claimed_at(x1 - 1, y) {
                1nat
            } else {
                0nat
            }
        }
    }

    /// Number of owned cells in the columns `x0` up to `x1` of the rows `y0`
    /// up to `y1`, upper ends not included.
    pub open spec fn claimed_in_rect(self, x0: int, x1: int, y0: int, y1: int) -> nat
        decreases y1 - y0,
    {
        if y1 <= y0 {
            0
        } else {
            self.claimed_in_rect(x0, x1, y0, y1 - 1) + self.claimed_in_row(y1 - 1, x0, x1)
        }
    }

    /// Number of owned cells in the block around `center`.
    pub open spec fn claimed_around(self, center: GridPos, half: int) -> nat {
        self.claimed_in_rect(
            center.x - half,
            center.x + half + 1,
            center.y - half,
            center.y + half + 1,
        )
    }

    /// A spawn area is clear while less than a quarter of a block of side
    /// `size` is owned: four times the owned cells around `center` stay
    /// below `size` squared. Two owned cells of nine leave a block of side
    /// three clear; three do not.
    pub open spec fn spawn_area_clear(self, center: GridPos, size: u32) -> bool {
        4 * self.claimed_around(center, (size / 2) as int) < size * size
    }
}

/// Gives `player_id` the square block of side `size` around `center`,
/// whoever owned its cells; what lies outside the grid is skipped.
pub fn grant_starting_territory(
    territory: &mut TerritoryGrid,
    player_id: PlayerId,
    center: &GridPos,
    size: u32,
)
    ensures
        final(territory)@ == old(territory)@.granted(player_id, *center, size),
{
    let ghost before = territory@;
    let ghost block_half = (size / 2) as int;
    let half: i64 = (size / 2) as i64;
    let cx: i64 = center.x as i64;
    let cy: i64 = center.y as i64;
    let total = territory.get_total_cells();
    let mut y: i64 = cy - half;
    while y <= cy + half
        invariant
            cy - half <= y <= cy + half + 1,
            half == block_half,
            0 <= half <= 0x7fff_ffff,
            cx == center.x,
            cy == center.y,
            before.wf(),
            territory@.width == before.width,
            territory@.height == before.height,
            territory@.cells.len() == before.cells.len(),
            forall|i: int|
                0 <= i < before.cells.len() ==> #[trigger] territory@.cells[i] == (if before.nameable(
                    i,
                ) && in_block(*center, block_half, before.pos_at(i)) && before.pos_at(i).y < y {
                    Some(player_id)
                } else {
                    before.cells[i]
                }),
        decreases cy + half + 1 - y,
    {
        let mut x: i64 = cx - half;
        while x <= cx + half
            invariant
                cx - half <= x <= cx + half + 1,
                cy - half <= y <= cy + half,
                half == block_half,
                0 <= half <= 0x7fff_ffff,
                cx == center.x,
                cy == center.y,
                before.wf(),
                territory@.width == before.width,
                territory@.height == before.height,
                territory@.cells.len() == before.cells.len(),
                forall|i: int|
                    0 <= i < before.cells.len() ==> #[trigger] territory@.cells[i] == (
                    if before.nameable(i) && in_block(*center, block_half, before.pos_at(i)) && (
                    before.pos_at(i).y < y || (before.pos_at(i).y == y && before.pos_at(i).x
                        < x)) {
                        Some(player_id)
                    } else {
                        before.cells[i]
                    }),
            decreases cx + half + 1 - x,
        {
            if i32::MIN as i64 <= x && x <= i32::MAX as i64 && i32::MIN as i64 <= y && y
                <= i32::MAX as i64 {
                let pos = GridPos { x: x as i32, y: y as i32 };
                let ghost now = territory@;
                territory.set_cell_owner(&pos, Some(player_id));
                proof {
                    if now.in_bounds(pos) {
                        lemma_index_roundtrip(now, pos);
                    }
                    assert forall|i: int| 0 <= i < before.cells.len() implies #[trigger] territory@.cells[i]
                        == (if before.nameable(i) && in_block(
                        *center,
                        block_half,
                        before.pos_at(i),
                    ) && (before.pos_at(i).y < y || (before.pos_at(i).y == y && before.pos_at(i).x < x
                        + 1)) {
                        Some(player_id)
                    } else {
                        before.cells[i]
                    }) by {
                        if before.nameable(i) {
                            lemma_pos_roundtrip(before, i);
                        }
                        assert(now.cells[i] == (if before.nameable(i) && in_block(
                            *center,
                            block_half,
                            before.pos_at(i),
                        ) && (before.pos_at(i).y < y || (before.pos_at(i).y == y
                            && before.pos_at(i).x < x)) {
                            Some(player_id)
                        } else {
                            before.cells[i]
                        }));
                    }
                }
            } else {
                proof {
                    assert forall|i: int| 0 <= i < before.cells.len() implies #[trigger] territory@.cells[i]
                        == (if before.nameable(i) && in_block(
                        *center,
                        block_half,
                        before.pos_at(i),
                    ) && (before.pos_at(i).y < y || (before.pos_at(i).y == y && before.pos_at(i).x < x
                        + 1)) {
                        Some(player_id)
                    } else {
                        before.cells[i]
                    }) by {}
                }
            }
            x += 1;
        }
        y += 1;
    }
    proof {
        assert(territory@.cells =~= before.granted(player_id, *center, size).cells);
    }
}

/// Whether the cell in column `x` and row `y` exists and has an owner.
fn is_claimed(territory: &TerritoryGrid, x: i64, y: i64) -> (claimed: bool)
    ensures
        claimed == territory@.claimed_at(x as int, y as int),
{
    if i32::MIN as i64 <= x && x <= i32::MAX as i64 && i32::MIN as i64 <= y && y <= i32::MAX as i64 {
        let pos = GridPos { x: x as i32, y: y as i32 };
        match territory.get_cell_owner(&pos) {
            Some(_) => true,
            None => false,
        }
    } else {
        false
    }
}

/// Whether a player may spawn at `center`: less than a quarter of a block of
/// side `size` around it is owned.
pub fn is_spawn_area_clear(territory: &TerritoryGrid, center: &GridPos, size: u32) -> (clear: bool)
    ensures
        clear == territory@.spawn_area_clear(*center, size),
{
    let ghost g = territory@;
    let half: i64 = (size / 2) as i64;
    let cx: i64 = center.x as i64;
    let cy: i64 = center.y as i64;
    let mut claimed: u128 = 0;
    let mut y: i64 = cy - half;
    while y <= cy + half
        invariant
            cy - half <= y <= cy + half + 1,
            0 <= half <= 0x7fff_ffff,
            half == (size / 2) as int,
            cx == center.x,
            cy == center.y,
            g == territory@,
            claimed == g.claimed_in_rect(cx - half, cx + half + 1, cy - half, y as int),
            claimed <= (y - (cy - half)) * 0x1_0000_0000,
        decreases cy + half + 1 - y,
    {
        let mut x: i64 = cx - half;
        let ghost rows = claimed;
        while x <= cx + half
            invariant
                cx - half <= x <= cx + half + 1,
                cy - half <= y <= cy + half,
                0 <= half <= 0x7fff_ffff,
                cx == center.x,
                cy == center.y,
                g == territory@,
                rows == g.claimed_in_rect(cx - half, cx + half + 1, cy - half, y as int),
                rows <= (y - (cy - half)) * 0x1_0000_0000,
                claimed == rows + g.claimed_in_row(y as int, cx - half, x as int),
                claimed <= rows + (x - (cx - half)),
            decreases cx + half + 1 - x,
        {
            if is_claimed(territory, x, y) {
                claimed += 1;
            }
            x += 1;
        }
        y += 1;
    }
    assert(size * size <= 0xffff_ffff * 0xffff_ffff) by (nonlinear_arith)
        requires
            0 <= size <= 0xffff_ffff,
    ;
    let area: u64 = (size as u64) * (size as u64);
    4 * claimed < area as u128
}

/// Distance in rings of cells: the greater of the column and the row
/// distance.
pub open spec fn ring(center: GridPos, pos: GridPos) -> int {
    let dx = if pos.x >= center.x {
        pos.x - center.x
    } else {
        center.x - pos.x
    };
    let dy = if pos.y >= center.y {
        pos.y - center.y
    } else {
        center.y - pos.y
    };
    if dx >= dy {
        dx
    } else {
        dy
    }
}

/// The order in which the spawn search visits cells: ring by ring outward
/// from `center`, within a ring column by column, within a column downward.
pub open spec fn scans_before(center: GridPos, a: GridPos, b: GridPos) -> bool {
    let ra = ring(center, a);
    let rb = ring(center, b);
    ra < rb || (ra == rb && (a.x < b.x || (a.x == b.x && a.y < b.y)))
}

/// Whether the search, standing at offset `(dx, dy)` of ring `radius`, has
/// already passed `pos`.
pub open spec fn scanned(center: GridPos, pos: GridPos, radius: int, dx: int, dy: int) -> bool {
    let r = ring(center, pos);
    r < radius || (r == radius && (pos.x - center.x < dx || (pos.x - center.x == dx && pos.y
        - center.y < dy)))
}

/// No living player: farther than any two cells are apart.
pub open spec fn beyond_reach() -> int {
    0x2_0000_0000
}

impl StateView {
    /// The middle cell of the grid.
    pub open spec fn center(self) -> GridPos {
        GridPos { x: (self.territory.width / 2) as i32, y: (self.territory.height / 2) as i32 }
    }

    /// The outermost ring that the spawn search visits.
    pub open spec fn search_reach(self) -> int {
        (if self.territory.width >= self.territory.height {
            self.territory.width
        } else {
            self.territory.height
        }) as int / 2
    }

    /// A cell that the spawn search considers: on a ring within reach, and
    /// at least the side of a starting block away from every edge.
    pub open spec fn is_candidate(self, config: PaperioConfig, pos: GridPos) -> bool {
        let margin = config.starting_territory_size as int;
        &&& ring(self.center(), pos) <= self.search_reach()
        &&& margin <= pos.x < self.territory.width - margin
        &&& margin <= pos.y < self.territory.height - margin
    }

    /// The distance from `pos` to the nearest of the players `ids`.
    pub open spec fn nearest_among(self, ids: Seq<PlayerId>, pos: GridPos) -> int
        decreases ids.len(),
    {
        if ids.len() == 0 {
            beyond_reach()
        } else {
            let rest = self.nearest_among(ids.drop_last(), pos);
            let last = pos.spec_distance(self.players[ids.last()].position);
            if last < rest {
                last
            } else {
                rest
            }
        }
    }

    /// The distance from `pos` to the nearest living player.
    pub open spec fn nearest(self, pos: GridPos) -> int {
        self.nearest_among(self.alive_ids(), pos)
    }

    /// A candidate that is far enough from every living player and whose
    /// starting block is mostly unowned.
    pub open spec fn spawn_ok(self, config: PaperioConfig, pos: GridPos) -> bool {
        &&& self.is_candidate(config, pos)
        &&& self.nearest(pos) >= config.min_spawn_distance
        &&& self.territory.spawn_area_clear(pos, config.starting_territory_size)
    }

    /// Whether `pos` is where the next player spawns. In an empty world
    /// that is the center. Otherwise it is the first cell in search order
    /// that is a good spawn; if there is none, the first among the
    /// candidates farthest from every living player; and the center if
    /// every candidate is occupied or there is no candidate.
    pub open spec fn is_spawn_choice(self, config: PaperioConfig, pos: GridPos) -> bool {
        if self.alive_ids().len() == 0 {
            pos == self.center()
        } else if exists|c: GridPos| self.spawn_ok(config, c) {
            &&& self.spawn_ok(config, pos)
            &&& forall|c: GridPos| #[trigger]
                self.spawn_ok(config, c) ==> !scans_before(self.center(), c, pos)
        } else if exists|c: GridPos| #[trigger] self.is_candidate(config, c) && self.nearest(c) > 0 {
            &&& self.is_candidate(config, pos)
            &&& self.nearest(pos) > 0
            &&& forall|c: GridPos| #[trigger]
                self.is_candidate(config, c) ==> self.nearest(c) <= self.nearest(pos)
            &&& forall|c: GridPos| #[trigger]
                self.is_candidate(config, c) && self.nearest(c) == self.nearest(pos)
                    ==> !scans_before(self.center(), c, pos)
        } else {
            pos == self.center()
        }
    }

    /// Where the next player spawns.
    pub open spec fn spawn_choice(self, config: PaperioConfig) -> GridPos {
        choose|pos: GridPos| self.is_spawn_choice(config, pos)
    }
}

/// There is only one spawn choice.
pub proof fn lemma_spawn_choice_unique(s: StateView, config: PaperioConfig, a: GridPos, b: GridPos)
    requires
        s.is_spawn_choice(config, a),
        s.is_spawn_choice(config, b),
    ensures
        a == b,
        a == s.spawn_choice(config),
{
    if a != b {
        assert(scans_before(s.center(), a, b) || scans_before(s.center(), b, a));
    }
}

/// The positions of the living players, in the order of `alive`.
fn positions_of(state: &GameState, alive: &Vec<PlayerId>) -> (occupied: Vec<GridPos>)
    requires
        alive@ == state@.alive_ids(),
    ensures
        occupied@.len() == alive@.len(),
        forall|k: int|
            0 <= k < alive@.len() ==> #[trigger] occupied@[k] == state@.players[alive@[k]].position,
{
    broadcast use vstd::std_specs::hash::group_hash_axioms;

    proof {
        state@.lemma_alive_ids();
    }
    let mut occupied: Vec<GridPos> = Vec::new();
    let mut i: usize = 0;
    while i < alive.len()
        invariant
            i <= alive@.len(),
            forall|k: int| 0 <= k < alive@.len() ==> state@.is_alive(#[trigger] alive@[k]),
            occupied@.len() == i,
            forall|k: int|
                0 <= k < i ==> #[trigger] occupied@[k] == state@.players[alive@[k]].position,
        decreases alive@.len() - i,
    {
        assert(state@.is_alive(alive@[i as int]));
        match state.players.get(&alive[i]) {
            Some(player) => {
                occupied.push(player.position);
            },
            None => {},
        }
        i += 1;
    }
    occupied
}

/// The distance from `pos` to the nearest of `occupied`.
fn nearest_distance(
    occupied: &Vec<GridPos>,
    pos: &GridPos,
    Ghost(s): Ghost<StateView>,
    Ghost(ids): Ghost<Seq<PlayerId>>,
) -> (nearest: u64)
    requires
        occupied@.len() == ids.len(),
        forall|k: int| 0 <= k < ids.len() ==> #[trigger] occupied@[k] == s.players[ids[k]].position,
    ensures
        nearest == s.nearest_among(ids, *pos),
{
    let mut nearest: u64 = 0x2_0000_0000;
    let mut i: usize = 0;
    while i < occupied.len()
        invariant
            i <= occupied@.len(),
            occupied@.len() == ids.len(),
            forall|k: int|
                0 <= k < ids.len() ==> #[trigger] occupied@[k] == s.players[ids[k]].position,
            nearest == s.nearest_among(ids.take(i as int), *pos),
        decreases occupied@.len() - i,
    {
        proof {
            assert(ids.take(i + 1).drop_last() =~= ids.take(i as int));
            assert(occupied@[i as int] == s.players[ids[i as int]].position);
        }
        let d = pos.wide_distance(&occupied[i]);
        if d < nearest {
            nearest = d;
        }
        i += 1;
    }
    proof {
        assert(ids.take(i as int) =~= ids);
    }
    nearest
}

/// What the spawn search knows after passing every cell before offset
/// `(dx, dy)` of ring `radius`: none of them is a good spawn, and `best` is
/// the first of those farthest from every living player.
pub open spec fn search_progress(
    s: StateView,
    config: PaperioConfig,
    radius: int,
    dx: int,
    dy: int,
    best_pos: Option<GridPos>,
    best_min: int,
) -> bool {
    let center = s.center();
    &&& forall|c: GridPos|
        #![trigger s.is_candidate(config, c)]
        s.is_candidate(config, c) && scanned(center, c, radius, dx, dy) ==> !s.spawn_ok(config, c)
            && s.nearest(c) <= best_min
    &&& match best_pos {
        Some(b) => {
            &&& s.is_candidate(config, b)
            &&& scanned(center, b, radius, dx, dy)
            &&& s.nearest(b) == best_min
            &&& best_min > 0
            &&& forall|c: GridPos|
                #![trigger s.is_candidate(config, c)]
                s.is_candidate(config, c) && scanned(center, c, radius, dx, dy) && s.nearest(c)
                    == best_min ==> !scans_before(center, c, b)
        },
        None => best_min == 0,
    }
}

/// Distances are never negative.
pub proof fn lemma_nearest_bounds(s: StateView, ids: Seq<PlayerId>, pos: GridPos)
    ensures
        0 <= s.nearest_among(ids, pos) <= beyond_reach(),
    decreases ids.len(),
{
    if ids.len() > 0 {
        lemma_nearest_bounds(s, ids.drop_last(), pos);
    }
}

/// Picks the cell where the next player enters the world; see
/// [`StateView::is_spawn_choice`]. There is always one.
pub fn find_spawn_position(state: &GameState, config: &PaperioConfig) -> (found: Option<GridPos>)
    ensures
        match found {
            Some(pos) => state@.is_spawn_choice(*config, pos),
            None => false,
        },
{
    let ghost s = state@;
    let ghost cfg = *config;
    let (width, height) = state.territory.get_grid_dimensions();
    let center = GridPos::new((width / 2) as i32, (height / 2) as i32);
    let alive = state.get_alive_ids();
    if alive.len() == 0 {
        return Some(center);
    }
    let occupied = positions_of(state, &alive);
    let margin: i64 = config.starting_territory_size as i64;
    let w: i64 = width as i64;
    let h: i64 = height as i64;
    let cx: i64 = center.x as i64;
    let cy: i64 = center.y as i64;
    let reach: i64 = ((if width >= height {
        width
    } else {
        height
    }) / 2) as i64;
    let mut best_pos: Option<GridPos> = None;
    let mut best_min: u64 = 0;
    let mut radius: i64 = 0;
    while radius <= reach
        invariant
            0 <= radius <= reach + 1,
            s == state@,
            cfg == *config,
            center == s.center(),
            cx == center.x,
            cy == center.y,
            w == s.territory.width,
            h == s.territory.height,
            reach == s.search_reach(),
            0 <= reach <= 0x7fff_ffff,
            margin == config.starting_territory_size,
            alive@ == s.alive_ids(),
            alive@.len() > 0,
            occupied@.len() == alive@.len(),
            forall|k: int|
                0 <= k < alive@.len() ==> #[trigger] occupied@[k]
                    == s.players[alive@[k]].position,
            search_progress(s, cfg, radius as int, -radius, -radius, best_pos, best_min as int),
        decreases reach + 1 - radius,
    {
        let mut dx: i64 = -radius;
        while dx <= radius
            invariant
                0 <= radius <= reach,
                -radius <= dx <= radius + 1,
                s == state@,
                cfg == *config,
                center == s.center(),
                cx == center.x,
                cy == center.y,
                w == s.territory.width,
                h == s.territory.height,
                reach == s.search_reach(),
                0 <= reach <= 0x7fff_ffff,
                margin == config.starting_territory_size,
                alive@ == s.alive_ids(),
                alive@.len() > 0,
                occupied@.len() == alive@.len(),
                forall|k: int|
                    0 <= k < alive@.len() ==> #[trigger] occupied@[k]
                        == s.players[alive@[k]].position,
                search_progress(s, cfg, radius as int, dx as int, -radius, best_pos, best_min as int),
            decreases radius + 1 - dx,
        {
            let mut dy: i64 = -radius;
            while dy <= radius
                invariant
                    0 <= radius <= reach,
                    -radius <= dx <= radius,
                    -radius <= dy <= radius + 1,
                    s == state@,
                    cfg == *config,
                    center == s.center(),
                    cx == center.x,
                    cy == center.y,
                    w == s.territory.width,
                    h == s.territory.height,
                    reach == s.search_reach(),
                    0 <= reach <= 0x7fff_ffff,
                    margin == config.starting_territory_size,
                    alive@ == s.alive_ids(),
                    alive@.len() > 0,
                    occupied@.len() == alive@.len(),
                    forall|k: int|
                        0 <= k < alive@.len() ==> #[trigger] occupied@[k]
                            == s.players[alive@[k]].position,
                    search_progress(
                        s,
                        cfg,
                        radius as int,
                        dx as int,
                        dy as int,
                        best_pos,
                        best_min as int,
                    ),
                decreases radius + 1 - dy,
            {
                let on_ring = dx == radius || dx == -radius || dy == radius || dy == -radius;
                let x: i64 = cx + dx;
                let y: i64 = cy + dy;
                let ghost old_best = best_pos;
                let ghost old_min = best_min;
                if on_ring && x >= margin && x < w - margin && y >= margin && y < h - margin && x
                    <= i32::MAX as i64 && y <= i32::MAX as i64 {
                    let pos = GridPos { x: x as i32, y: y as i32 };
                    let nearest = nearest_distance(&occupied, &pos, Ghost(s), Ghost(alive@));
                    proof {
                        lemma_nearest_bounds(s, s.alive_ids(), pos);
                        assert(ring(center, pos) == radius);
                        assert(s.is_candidate(cfg, pos));
                    }
                    if nearest >= config.min_spawn_distance as u64 && is_spawn_area_clear(
                        &state.territory,
                        &pos,
                        config.starting_territory_size,
                    ) {
                        proof {
                            assert(s.spawn_ok(cfg, pos));
                            assert forall|c: GridPos| #[trigger]
                                s.spawn_ok(cfg, c) implies !scans_before(center, c, pos) by {
                                if scans_before(center, c, pos) {
                                    assert(s.is_candidate(cfg, c));
                                    assert(scanned(center, c, radius as int, dx as int, dy as int));
                                }
                            }
                        }
                        return Some(pos);
                    }
                    if nearest > best_min {
                        best_min = nearest;
                        best_pos = Some(pos);
                    }
                    proof {
                        assert forall|c: GridPos|
                            #![trigger s.is_candidate(cfg, c)]
                            s.is_candidate(cfg, c) && scanned(
                                center,
                                c,
                                radius as int,
                                dx as int,
                                dy + 1,
                            ) implies !s.spawn_ok(cfg, c) && s.nearest(c) <= best_min by {
                            if c != pos {
                                assert(scanned(center, c, radius as int, dx as int, dy as int));
                            }
                        }
                        match best_pos {
                            Some(b) => {
                                assert forall|c: GridPos|
                                    #![trigger s.is_candidate(cfg, c)]
                                    s.is_candidate(cfg, c) && scanned(
                                        center,
                                        c,
                                        radius as int,
                                        dx as int,
                                        dy + 1,
                                    ) && s.nearest(c) == best_min implies !scans_before(
                                    center,
                                    c,
                                    b,
                                ) by {
                                    if c != pos {
                                        assert(scanned(
                                            center,
                                            c,
                                            radius as int,
                                            dx as int,
                                            dy as int,
                                        ));
                                    }
                                }
                            },
                            None => {},
                        }
                    }
                } else {
                    proof {
                        assert forall|c: GridPos|
                            #![trigger s.is_candidate(cfg, c)]
                            s.is_candidate(cfg, c) && scanned(
                                center,
                                c,
                                radius as int,
                                dx as int,
                                dy + 1,
                            ) implies scanned(center, c, radius as int, dx as int, dy as int) by {}
                    }
                }
                dy += 1;
            }
            proof {
                assert forall|c: GridPos|
                    #![trigger s.is_candidate(cfg, c)]
                    scanned(center, c, radius as int, dx + 1, -radius) implies scanned(
                    center,
                    c,
                    radius as int,
                    dx as int,
                    radius + 1,
                ) by {}
            }
            dx += 1;
        }
        proof {
            assert forall|c: GridPos|
                #![trigger s.is_candidate(cfg, c)]
                scanned(center, c, radius + 1, -(radius + 1), -(radius + 1)) implies scanned(
                center,
                c,
                radius as int,
                radius + 1,
                -radius,
            ) by {}
        }
        radius += 1;
    }
    proof {
        assert forall|c: GridPos| s.is_candidate(cfg, c) implies scanned(
            center,
            c,
            radius as int,
            -radius,
            -radius,
        ) by {}
        assert forall|c: GridPos| s.is_candidate(cfg, c) implies s.nearest(c) >= 0 by {
            lemma_nearest_bounds(s, s.alive_ids(), c);
        }
    }
    match best_pos {
        Some(pos) => Some(pos),
        None => Some(center),
    }
}

impl StateView {
    /// The state after `id` re-enters the world at `pos`: the player, if
    /// there is one, stands there alive and invulnerable, and the starting
    /// block around `pos` is its territory, whoever owned it.
    pub open spec fn respawn_at(self, id: PlayerId, pos: GridPos, config: PaperioConfig) -> StateView {
        StateView {
            players: if self.players.contains_key(id) {
                self.players.insert(
                    id,
                    self.players[id].respawned(pos, config.invulnerability_ticks),
                )
            } else {
                self.players
            },
            territory: self.territory.granted(id, pos, config.starting_territory_size),
        }
    }

    /// The state after `id` re-enters the world where the spawn search puts
    /// it.
    pub open spec fn respawn(self, id: PlayerId, config: PaperioConfig) -> StateView {
        self.respawn_at(id, self.spawn_choice(config), config)
    }
}

/// Puts a player back into the world at the position that the spawn search
/// picks, and returns that position.
pub fn respawn_player(state: &mut GameState, player_id: PlayerId, config: &PaperioConfig) -> (spawn:
    Option<GridPos>)
    ensures
        spawn == Some(old(state)@.spawn_choice(*config)),
        final(state)@ == old(state)@.respawn(player_id, *config),
{
    let ghost before = state@;
    let spawn_pos = match find_spawn_position(state, config) {
        Some(pos) => pos,
        None => {
            return None;
        },
    };
    proof {
        lemma_spawn_choice_unique(before, *config, spawn_pos, spawn_pos);
    }
    match state.get_player_mut(player_id) {
        Some(player) => {
            player.position = spawn_pos;
            player.alive = true;
            player.direction = Direction::Still;
            player.trail.clear();
            player.invulnerability_timer = config.invulnerability_ticks;
        },
        None => {},
    }
    grant_starting_territory(
        &mut state.territory,
        player_id,
        &spawn_pos,
        config.starting_territory_size,
    );
    Some(spawn_pos)
}

} // verus!
