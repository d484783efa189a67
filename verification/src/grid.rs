use vstd::prelude::*;
use vstd::std_specs::ops::AddSpecImpl;
use vstd::std_specs::ops::SubSpecImpl;

verus! {

/// A cell coordinate: `x` grows to the right, `y` grows downward, and
/// `(0, 0)` is the top-left corner.
#[derive(Debug, Clone, Copy, PartialEq, Eq, Hash, Structural)]
pub struct GridPos {
    pub x: i32,
    pub y: i32,
}

/// A heading on the grid; `Still` means not moving.
#[derive(Debug, Clone, Copy, PartialEq, Eq, Structural)]
pub enum Direction {
    Still,
    Up,
    Down,
    Left,
    Right,
}

impl Default for Direction {
    fn default() -> (d: Self)
        ensures
            d == Direction::Still,
    {
        Direction::Still
    }
}

impl Direction {
    /// The unit step of this heading as `(dx, dy)`.
    pub open spec fn spec_delta(self) -> (int, int) {
        match self {
            Direction::Still => (0, 0),
            Direction::Up => (0, -1),
            Direction::Down => (0, 1),
            Direction::Left => (-1, 0),
            Direction::Right => (1, 0),
        }
    }

    /// The heading that points the other way; `Still` is its own opposite.
    pub open spec fn spec_opposite(self) -> Direction {
        match self {
            Direction::Still => Direction::Still,
            Direction::Up => Direction::Down,
            Direction::Down => Direction::Up,
            Direction::Left => Direction::Right,
            Direction::Right => Direction::Left,
        }
    }

    /// Two headings are opposite when both move and each undoes the other.
    pub open spec fn spec_is_opposite(self, other: Direction) -> bool {
        self != Direction::Still && other == self.spec_opposite()
    }

    pub fn delta(&self) -> (d: (i32, i32))
        ensures
            (d.0 as int, d.1 as int) == self.spec_delta(),
    {
        match self {
            Direction::Still => (0, 0),
            Direction::Up => (0, -1),
            Direction::Down => (0, 1),
            Direction::Left => (-1, 0),
            Direction::Right => (1, 0),
        }
    }

    pub fn is_opposite(&self, other: &Direction) -> (b: bool)
        ensures
            b == self.spec_is_opposite(*other),
    {
        match (self, other) {
            (Direction::Up, Direction::Down) => true,
            (Direction::Down, Direction::Up) => true,
            (Direction::Left, Direction::Right) => true,
            (Direction::Right, Direction::Left) => true,
            _ => false,
        }
    }

    pub fn get_opposite(&self) -> (d: Direction)
        ensures
            d == self.spec_opposite(),
    {
        match self {
            Direction::Still => Direction::Still,
            Direction::Up => Direction::Down,
            Direction::Down => Direction::Up,
            Direction::Left => Direction::Right,
            Direction::Right => Direction::Left,
        }
    }
}

/// Turning around twice gives the heading back, and a heading is opposite to
/// another exactly when the other is opposite to it.
pub proof fn law_opposite_involution(a: Direction, b: Direction)
    ensures
        a.spec_opposite().spec_opposite() == a,
        a.spec_is_opposite(b) == b.spec_is_opposite(a),
        !a.spec_is_opposite(a),
{
}

impl GridPos {
    /// Whether both coordinates of `self` shifted by `(dx, dy)` are still
    /// `i32` values.
    pub open spec fn can_offset(self, dx: int, dy: int) -> bool {
        &&& i32::MIN <= self.x + dx <= i32::MAX
        &&& i32::MIN <= self.y + dy <= i32::MAX
    }

    /// The position `(dx, dy)` away from `self`.
    pub open spec fn spec_offset(self, dx: int, dy: int) -> GridPos
        recommends
            self.can_offset(dx, dy),
    {
        GridPos { x: (self.x + dx) as i32, y: (self.y + dy) as i32 }
    }

    /// The neighbouring position one step along `direction`.
    pub open spec fn spec_moved(self, direction: Direction) -> GridPos
        recommends
            self.can_offset(direction.spec_delta().0, direction.spec_delta().1),
    {
        self.spec_offset(direction.spec_delta().0, direction.spec_delta().1)
    }

    /// Whether a step along `direction` stays within `i32` coordinates.
    pub open spec fn can_move(self, direction: Direction) -> bool {
        self.can_offset(direction.spec_delta().0, direction.spec_delta().1)
    }

    /// Manhattan distance: the number of single steps between two positions.
    pub open spec fn spec_distance(self, other: GridPos) -> int {
        (if self.x >= other.x {
            self.x - other.x
        } else {
            other.x - self.x
        }) + (if self.y >= other.y {
            self.y - other.y
        } else {
            other.y - self.y
        })
    }

    pub fn new(x: i32, y: i32) -> (pos: Self)
        ensures
            pos == (GridPos { x, y }),
    {
        Self { x, y }
    }

    pub fn offset(&self, dx: i32, dy: i32) -> (pos: Self)
        requires
            self.can_offset(dx as int, dy as int),
        ensures
            pos == self.spec_offset(dx as int, dy as int),
            pos.x == self.x + dx,
            pos.y == self.y + dy,
    {
        Self { x: self.x + dx, y: self.y + dy }
    }

    pub fn moved(&self, direction: Direction) -> (pos: Self)
        requires
            self.can_move(direction),
        ensures
            pos == self.spec_moved(direction),
    {
        let (dx, dy) = direction.delta();
        self.offset(dx, dy)
    }

    /// The neighbouring position one step along `direction`, unless that
    /// step leaves the `i32` coordinate space.
    pub fn checked_moved(&self, direction: Direction) -> (next: Option<Self>)
        ensures
            match next {
                Some(pos) => self.can_move(direction) && pos == self.spec_moved(direction),
                None => !self.can_move(direction),
            },
    {
        let (dx, dy) = direction.delta();
        let x: i64 = self.x as i64 + dx as i64;
        let y: i64 = self.y as i64 + dy as i64;
        if x < i32::MIN as i64 || x > i32::MAX as i64 || y < i32::MIN as i64 || y > i32::MAX as i64 {
            None
        } else {
            Some(Self { x: x as i32, y: y as i32 })
        }
    }

    pub fn distance(&self, other: &GridPos) -> (d: u32)
        requires
            self.spec_distance(*other) <= u32::MAX,
        ensures
            d == self.spec_distance(*other),
    {
        (self.wide_distance(other)) as u32
    }

    /// Manhattan distance without any bound on the coordinates.
    pub fn wide_distance(&self, other: &GridPos) -> (d: u64)
        ensures
            d == self.spec_distance(*other),
    {
        let dx: i64 = self.x as i64 - other.x as i64;
        let dy: i64 = self.y as i64 - other.y as i64;
        let ax: i64 = if dx < 0 { -dx } else { dx };
        let ay: i64 = if dy < 0 { -dy } else { dy };
        (ax + ay) as u64
    }
}

impl std::ops::Add for GridPos {
    type Output = Self;

    fn add(self, other: Self) -> (sum: Self) {
        Self { x: self.x + other.x, y: self.y + other.y }
    }
}

impl AddSpecImpl for GridPos {
    open spec fn obeys_add_spec() -> bool {
        true
    }

    open spec fn add_req(self, other: Self) -> bool {
        self.can_offset(other.x as int, other.y as int)
    }

    open spec fn add_spec(self, other: Self) -> Self {
        self.spec_offset(other.x as int, other.y as int)
    }
}

impl std::ops::Sub for GridPos {
    type Output = Self;

    fn sub(self, other: Self) -> (diff: Self) {
        Self { x: self.x - other.x, y: self.y - other.y }
    }
}

impl SubSpecImpl for GridPos {
    open spec fn obeys_sub_spec() -> bool {
        true
    }

    open spec fn sub_req(self, other: Self) -> bool {
        self.can_offset(-(other.x as int), -(other.y as int))
    }

    open spec fn sub_spec(self, other: Self) -> Self {
        self.spec_offset(-(other.x as int), -(other.y as int))
    }
}

/// Two positions are adjacent when a single step leads from one to the
/// other.
pub open spec fn adjacent(a: GridPos, b: GridPos) -> bool {
    a.spec_distance(b) == 1
}

/// Distance is symmetric, zero exactly between equal positions, and a single
/// step along a heading covers distance one.
pub proof fn law_distance_properties(a: GridPos, b: GridPos, d: Direction)
    ensures
        a.spec_distance(b) == b.spec_distance(a),
        a.spec_distance(b) >= 0,
        a.spec_distance(b) == 0 <==> a == b,
        d != Direction::Still && a.can_move(d) ==> a.spec_distance(a.spec_moved(d)) == 1,
{
}

} // verus!
