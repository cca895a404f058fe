use vstd::prelude::*;

verus! {

/// One of the four directions in which the snake can move.
#[derive(Clone, Copy, Debug, PartialEq, Eq, Structural)]
pub enum Direction {
    Up,
    Left,
    Down,
    Right,
}

/// The state of one cell of the board.
#[derive(Clone, Copy, Debug, PartialEq, Eq, Structural)]
pub enum Cell {
    Empty,
    Target,
    /// Occupied by the snake, which left this cell (or, at the head, will
    /// leave it) in the given direction.
    Snake(Direction),
}

/// The column and row offsets of one step in direction `d`; row 0 is the top.
pub open spec fn delta(d: Direction) -> (int, int) {
    match d {
        Direction::Up => (0, -1),
        Direction::Left => (-1, 0),
        Direction::Down => (0, 1),
        Direction::Right => (1, 0),
    }
}

/// A position given as unsigned column and row.
pub open spec fn pos(p: (usize, usize)) -> (int, int) {
    (p.0 as int, p.1 as int)
}

/// The position one step from `p` in direction `d`.
pub open spec fn step(p: (int, int), d: Direction) -> (int, int) {
    (p.0 + delta(d).0, p.1 + delta(d).1)
}

/// The cell at column `c` and row `r` of a grid stored row by row, or `None`
/// off the grid.
pub open spec fn cell_at(grid: Seq<Seq<Cell>>, c: int, r: int) -> Option<Cell> {
    if 0 <= r < grid.len() && 0 <= c < grid[r].len() {
        Some(grid[r][c])
    } else {
        None
    }
}

/// `grid` has `height` rows of `width` cells each.
pub open spec fn is_grid(grid: Seq<Seq<Cell>>, width: nat, height: nat) -> bool {
    &&& grid.len() == height
    &&& forall|r: int| 0 <= r < height ==> #[trigger] grid[r].len() == width
}

/// A grid of `width` columns and `height` rows, every cell `Empty`.
pub open spec fn blank(width: nat, height: nat) -> Seq<Seq<Cell>> {
    Seq::new(height, |r: int| Seq::new(width, |c: int| Cell::Empty))
}

/// The grid with the cell at position `p` replaced by `v`.
pub open spec fn put(grid: Seq<Seq<Cell>>, p: (int, int), v: Cell) -> Seq<Seq<Cell>> {
    grid.update(p.1, grid[p.1].update(p.0, v))
}

/// A rectangular store of cells, addressed by column and row.
pub struct Board {
    /// Indexed by row, then by column.
    rows: Vec<Vec<Cell>>,
}

impl View for Board {
    type V = Seq<Seq<Cell>>;

    closed spec fn view(&self) -> Seq<Seq<Cell>> {
        Seq::new(self.rows@.len(), |r: int| self.rows@[r]@)
    }
}

impl Board {
    /// A board of `width` columns and `height` rows, every cell `Empty`.
    pub fn new(width: usize, height: usize) -> (b: Board)
        ensures
            b@ == blank(width as nat, height as nat),
    {
        let mut rows: Vec<Vec<Cell>> = Vec::with_capacity(height);
        let mut r: usize = 0;
        while r < height
            invariant
                r <= height,
                rows@.len() == r,
                forall|i: int| 0 <= i < r ==> #[trigger] rows@[i]@ == Seq::new(width as nat, |c: int| Cell::Empty),
            decreases height - r,
        {
            rows.push(vec![Cell::Empty; width]);
            r = r + 1;
        }
        let b = Board { rows };
        assert(b@ =~= blank(width as nat, height as nat));
        b
    }

    /// The cell at `column` and `row`, or `None` off the board.
    pub fn at(&self, column: usize, row: usize) -> (r: Option<Cell>)
        ensures
            r == cell_at(self@, column as int, row as int),
    {
        if row < self.rows.len() && column < self.rows[row].len() {
            Some(self.rows[row][column])
        } else {
            None
        }
    }

    /// Replaces the cell at `column` and `row`, which must be on the board.
    /// Only the game writes cells, which keeps its invariant in one place.
    pub(crate) fn set(&mut self, column: usize, row: usize, v: Cell)
        requires
            cell_at(old(self)@, column as int, row as int) is Some,
        ensures
            final(self)@ == put(old(self)@, (column as int, row as int), v),
    {
        self.rows[row][column] = v;
        assert(self@ =~= put(old(self)@, (column as int, row as int), v));
    }
}

/// The direction numbered `n`: 1 is `Up`, 2 `Left`, 3 `Down`, and any other
/// number `Right`.
pub open spec fn direction_numbered(n: usize) -> Direction {
    if n == 1 {
        Direction::Up
    } else if n == 2 {
        Direction::Left
    } else if n == 3 {
        Direction::Down
    } else {
        Direction::Right
    }
}

impl From<usize> for Direction {
    fn from(n: usize) -> (d: Direction) {
        match n {
            1 => Direction::Up,
            2 => Direction::Left,
            3 => Direction::Down,
            _ => Direction::Right,
        }
    }
}

impl vstd::std_specs::convert::FromSpecImpl<usize> for Direction {
    open spec fn obeys_from_spec() -> bool {
        true
    }

    open spec fn from_spec(n: usize) -> Direction {
        direction_numbered(n)
    }
}

} // verus!
