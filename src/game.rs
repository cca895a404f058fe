use rand::Rng;
use vstd::prelude::*;

use crate::board::{blank, cell_at, is_grid, pos, put, step, Board, Cell, Direction};

verus! {

/// How many random cells a new target may try before the first free cell,
/// row by row, is taken instead.
pub const RESPAWN_DRAWS: usize = 32;

/// Relies on rand's `Rng::gen_range` on `thread_rng()`: a number drawn
/// uniformly from `0..bound`; it panics when `bound` is 0.
#[verifier::external_body]
fn random_below(bound: usize) -> (r: usize)
    requires
        0 < bound,
    ensures
        r < bound,
{
    rand::thread_rng().gen_range(0, bound)
}

/// `RESPAWN_DRAWS` cells of a board of `width` by `height`, drawn at random.
fn draw_candidates(width: usize, height: usize) -> (v: Vec<(usize, usize)>)
    requires
        0 < width,
        0 < height,
    ensures
        v@.len() == RESPAWN_DRAWS,
        forall|i: int| 0 <= i < v@.len() ==> #[trigger] v@[i].0 < width && v@[i].1 < height,
{
    let mut v: Vec<(usize, usize)> = Vec::with_capacity(RESPAWN_DRAWS);
    let mut i: usize = 0;
    while i < RESPAWN_DRAWS
        invariant
            0 < width,
            0 < height,
            i <= RESPAWN_DRAWS,
            v@.len() == i,
            forall|j: int| 0 <= j < v@.len() ==> #[trigger] v@[j].0 < width && v@[j].1 < height,
        decreases RESPAWN_DRAWS - i,
    {
        let column = random_below(width);
        let row = random_below(height);
        v.push((column, row));
        i = i + 1;
    }
    v
}

/// Why a game ended.
#[derive(Clone, Copy, Debug, PartialEq, Eq, Structural)]
pub enum Cause {
    /// The snake moved off the board.
    HitWall,
    /// The snake moved into a cell of its own body.
    HitSelf,
}

/// Whether the game goes on.
#[derive(Clone, Copy, Debug, PartialEq, Eq, Structural)]
pub enum State {
    Running,
    /// Absorbing: a terminated game is not ticked again.
    Terminated(Cause),
}

/// The direction stored at `p`; meaningful where the snake is.
pub open spec fn direction_at(grid: Seq<Seq<Cell>>, p: (int, int)) -> Direction {
    match cell_at(grid, p.0, p.1) {
        Some(Cell::Snake(d)) => d,
        _ => Direction::Down,
    }
}

/// `p` is on the grid and the snake is not there.
pub open spec fn is_free_in(grid: Seq<Seq<Cell>>, p: (int, int)) -> bool {
    match cell_at(grid, p.0, p.1) {
        Some(Cell::Snake(_)) => false,
        Some(_) => true,
        None => false,
    }
}

/// The abstract state of a game.
pub struct GameView {
    /// The cells, row by row.
    pub grid: Seq<Seq<Cell>>,
    pub width: nat,
    pub height: nat,
    /// The most recently entered cell of the snake.
    pub head: (int, int),
    /// The oldest cell of the snake.
    pub tail: (int, int),
    /// The snake's cells from the tail to the head.
    pub body: Seq<(int, int)>,
    /// The one target cell, or `None` once the snake fills the board.
    pub target: Option<(int, int)>,
    pub state: State,
}

impl GameView {
    pub open spec fn in_bounds(self, p: (int, int)) -> bool {
        0 <= p.0 < self.width && 0 <= p.1 < self.height
    }

    pub open spec fn cell(self, p: (int, int)) -> Option<Cell> {
        cell_at(self.grid, p.0, p.1)
    }

    pub open spec fn is_snake(self, p: (int, int)) -> bool {
        self.cell(p) matches Some(Cell::Snake(_))
    }

    /// The direction of the next move: the one stored at the head.
    pub open spec fn heading(self) -> Direction {
        direction_at(self.grid, self.head)
    }

    /// Where the head goes on the next move.
    pub open spec fn next_head(self) -> (int, int) {
        step(self.head, self.heading())
    }

    /// The direction stored at the body's `i`-th cell leads to its next one.
    pub open spec fn linked(self, i: int) -> bool {
        step(self.body[i], direction_at(self.grid, self.body[i])) == self.body[i + 1]
    }

    /// `t` holds the target, and no other cell does.
    pub open spec fn is_only_target(self, t: (int, int)) -> bool {
        &&& self.cell(t) == Some(Cell::Target)
        &&& forall|p: (int, int)| self.cell(p) == Some(Cell::Target) ==> p == t
    }

    /// The snake occupies every cell of the board.
    pub open spec fn is_full(self) -> bool {
        forall|p: (int, int)| self.in_bounds(p) ==> self.is_snake(p)
    }

    /// The next move lands on the target.
    pub open spec fn grows(self) -> bool {
        self.in_bounds(self.next_head()) && self.cell(self.next_head()) == Some(Cell::Target)
    }

    /// This state, ended for `cause`.
    pub open spec fn stopped(self, cause: Cause) -> GameView {
        GameView { state: State::Terminated(cause), ..self }
    }

    /// The state after a move onto an empty cell: the head advances and the
    /// tail follows the direction stored in it.
    pub open spec fn moved(self) -> GameView {
        let n = self.next_head();
        GameView {
            grid: put(put(self.grid, n, Cell::Snake(self.heading())), self.tail, Cell::Empty),
            head: n,
            tail: step(self.tail, direction_at(self.grid, self.tail)),
            body: self.body.drop_first().push(n),
            ..self
        }
    }

    /// The grid after the head advances onto the target, before a new
    /// target is placed.
    pub open spec fn grown_grid(self) -> Seq<Seq<Cell>> {
        put(self.grid, self.next_head(), Cell::Snake(self.heading()))
    }

    /// `after` is this state after a move onto the target: the head advances,
    /// the tail stays, and a new target is put on an empty cell, or on none
    /// when the snake fills the board.
    pub open spec fn grown(self, after: GameView) -> bool {
        let g = self.grown_grid();
        &&& after.width == self.width
        &&& after.height == self.height
        &&& after.head == self.next_head()
        &&& after.tail == self.tail
        &&& after.body == self.body.push(self.next_head())
        &&& after.state == self.state
        &&& match after.target {
            Some(t) => {
                &&& cell_at(g, t.0, t.1) == Some(Cell::Empty)
                &&& after.grid == put(g, t, Cell::Target)
            },
            None => {
                &&& after.grid == g
                &&& after.is_full()
            },
        }
    }

    /// `after` is a state that one tick can lead to from this one.
    pub open spec fn ticked(self, after: GameView) -> bool {
        let n = self.next_head();
        if !self.in_bounds(n) {
            after == self.stopped(Cause::HitWall)
        } else if self.is_snake(n) {
            after == self.stopped(Cause::HitSelf)
        } else if self.cell(n) == Some(Cell::Empty) {
            after == self.moved()
        } else {
            self.grown(after)
        }
    }

    /// What holds of every state that a game reaches.
    pub open spec fn inv(self) -> bool {
        &&& 0 < self.width
        &&& 0 < self.height
        &&& is_grid(self.grid, self.width, self.height)
        &&& 1 <= self.body.len()
        &&& self.body[0] == self.tail
        &&& self.body.last() == self.head
        &&& self.body.no_duplicates()
        &&& forall|i: int|
            0 <= i < self.body.len() ==> #[trigger] self.is_snake(self.body[i])
        &&& forall|i: int| 0 <= i < self.body.len() - 1 ==> #[trigger] self.linked(i)
        &&& forall|p: (int, int)| #[trigger] self.is_snake(p) ==> self.body.contains(p)
        &&& match self.target {
            Some(t) => self.is_only_target(t),
            None => self.is_full(),
        }
    }
}

/// `q` comes before `p` when the board is read row by row.
pub open spec fn reads_before(q: (int, int), p: (int, int)) -> bool {
    q.1 < p.1 || (q.1 == p.1 && q.0 < p.0)
}

/// The first of `candidates`, from the `i`-th on, that is free in `grid`.
pub open spec fn first_free_from(grid: Seq<Seq<Cell>>, candidates: Seq<(usize, usize)>, i: int) -> Option<(int, int)>
    decreases candidates.len() - i,
{
    if i < 0 || i >= candidates.len() {
        None
    } else if is_free_in(grid, pos(candidates[i])) {
        Some(pos(candidates[i]))
    } else {
        first_free_from(grid, candidates, i + 1)
    }
}

/// `t` is where a new target goes on `grid`: the first free cell among
/// `candidates`; failing that, the first free cell row by row; failing that,
/// nowhere, since the snake fills the board.
pub open spec fn respawn_choice(grid: Seq<Seq<Cell>>, candidates: Seq<(usize, usize)>, t: Option<(int, int)>) -> bool {
    match first_free_from(grid, candidates, 0) {
        Some(p) => t == Some(p),
        None => match t {
            Some(p) => {
                &&& is_free_in(grid, p)
                &&& forall|q: (int, int)| reads_before(q, p) ==> !#[trigger] is_free_in(grid, q)
            },
            None => forall|q: (int, int)| !#[trigger] is_free_in(grid, q),
        },
    }
}

/// What `first_free_from` names is free.
proof fn lemma_first_free_is_free(grid: Seq<Seq<Cell>>, candidates: Seq<(usize, usize)>, i: int)
    ensures
        first_free_from(grid, candidates, i) matches Some(p) ==> is_free_in(grid, p),
    decreases candidates.len() - i,
{
    if 0 <= i < candidates.len() && !is_free_in(grid, pos(candidates[i])) {
        lemma_first_free_is_free(grid, candidates, i + 1);
    }
}

/// Puts a target on the first free cell that `respawn_choice` names, and
/// says where.
fn place_target(board: &mut Board, width: usize, height: usize, candidates: &[(usize, usize)]) -> (t: Option<(usize, usize)>)
    requires
        is_grid(old(board)@, width as nat, height as nat),
    ensures
        respawn_choice(old(board)@, candidates@, match t { Some(p) => Some(pos(p)), None => None }),
        match t {
            Some(p) => final(board)@ == put(old(board)@, pos(p), Cell::Target),
            None => final(board)@ == old(board)@,
        },
{
    let ghost g = board@;
    let mut i: usize = 0;
    while i < candidates.len()
        invariant
            board@ == g,
            g == old(board)@,
            i <= candidates@.len(),
            first_free_from(g, candidates@, 0) == first_free_from(g, candidates@, i as int),
        decreases candidates.len() - i,
    {
        let (c, r) = candidates[i];
        match board.at(c, r) {
            Some(Cell::Empty) | Some(Cell::Target) => {
                board.set(c, r, Cell::Target);
                return Some((c, r));
            },
            _ => {},
        }
        i = i + 1;
    }
    let mut r: usize = 0;
    while r < height
        invariant
            board@ == g,
            g == old(board)@,
            is_grid(g, width as nat, height as nat),
            first_free_from(g, candidates@, 0) is None,
            forall|q: (int, int)| q.1 < r ==> !#[trigger] is_free_in(g, q),
        decreases height - r,
    {
        let mut c: usize = 0;
        while c < width
            invariant
                board@ == g,
                g == old(board)@,
                r < height,
                is_grid(g, width as nat, height as nat),
                first_free_from(g, candidates@, 0) is None,
                forall|q: (int, int)| reads_before(q, (c as int, r as int)) ==> !#[trigger] is_free_in(g, q),
            decreases width - c,
        {
            match board.at(c, r) {
                Some(Cell::Empty) | Some(Cell::Target) => {
                    board.set(c, r, Cell::Target);
                    return Some((c, r));
                },
                _ => {},
            }
            assert forall|q: (int, int)| reads_before(q, (c + 1, r as int)) implies !#[trigger] is_free_in(g, q) by {
                if !reads_before(q, (c as int, r as int)) {
                    assert(q == (c as int, r as int));
                }
            }
            c = c + 1;
        }
        assert forall|q: (int, int)| q.1 < r + 1 implies !#[trigger] is_free_in(g, q) by {
            if q.1 == r && 0 <= q.0 < width {
                assert(reads_before(q, (width as int, r as int)));
            }
        }
        r = r + 1;
    }
    None
}

/// Facts about a grid after one cell is replaced.
pub proof fn lemma_put(grid: Seq<Seq<Cell>>, width: nat, height: nat, p: (int, int), v: Cell)
    requires
        is_grid(grid, width, height),
        0 <= p.0 < width,
        0 <= p.1 < height,
    ensures
        is_grid(put(grid, p, v), width, height),
        forall|c: int, r: int| #[trigger]
            cell_at(put(grid, p, v), c, r) == if c == p.0 && r == p.1 {
                Some(v)
            } else {
                cell_at(grid, c, r)
            },
{
    assert forall|r: int| 0 <= r < height implies #[trigger] put(grid, p, v)[r].len() == width by {
        assert(grid[r].len() == width);
    }
}

/// The cells of a blank grid.
pub proof fn lemma_blank(width: nat, height: nat)
    ensures
        is_grid(blank(width, height), width, height),
        forall|c: int, r: int| #[trigger]
            cell_at(blank(width, height), c, r) == if 0 <= c < width && 0 <= r < height {
                Some(Cell::Empty)
            } else {
                None
            },
{
}

/// Ending a game keeps the invariant.
pub proof fn lemma_stopped(v: GameView, cause: Cause)
    requires
        v.inv(),
    ensures
        v.stopped(cause).inv(),
{
    let w = v.stopped(cause);
    assert forall|i: int| 0 <= i < w.body.len() implies #[trigger] w.is_snake(w.body[i]) by {
        assert(v.is_snake(v.body[i]));
    }
    assert forall|i: int| 0 <= i < w.body.len() - 1 implies #[trigger] w.linked(i) by {
        assert(v.linked(i));
    }
    assert forall|p: (int, int)| #[trigger] w.is_snake(p) implies w.body.contains(p) by {
        assert(v.is_snake(p));
    }
    match v.target {
        Some(t) => {
            assert forall|p: (int, int)| w.cell(p) == Some(Cell::Target) implies p == t by {
                assert(v.cell(p) == Some(Cell::Target));
            }
        },
        None => {
            assert forall|p: (int, int)| w.in_bounds(p) implies w.is_snake(p) by {
                assert(v.is_snake(p));
            }
        },
    }
}

/// A move onto an empty cell keeps the invariant.
pub proof fn lemma_moved(v: GameView)
    requires
        v.inv(),
        v.in_bounds(v.next_head()),
        v.cell(v.next_head()) == Some(Cell::Empty),
    ensures
        v.moved().inv(),
{
    let n = v.next_head();
    let d = v.heading();
    let len = v.body.len() as int;
    let w = v.moved();
    assert(v.is_snake(v.body[0]));
    assert(v.is_snake(v.body[len - 1]));
    assert(v.grid[v.tail.1].len() == v.width);
    lemma_put(v.grid, v.width, v.height, n, Cell::Snake(d));
    let g1 = put(v.grid, n, Cell::Snake(d));
    lemma_put(g1, v.width, v.height, v.tail, Cell::Empty);
    assert(!v.body.contains(n)) by {
        if v.body.contains(n) {
            let k = choose|k: int| 0 <= k < len && v.body[k] == n;
            assert(v.is_snake(v.body[k]));
        }
    }
    assert(w.body.len() == len);
    assert forall|i: int| 0 <= i < len - 1 implies #[trigger] w.body[i] == v.body[i + 1] by {}
    assert(w.body[len - 1] == n);
    if len == 1 {
        assert(w.body[0] == w.tail);
    } else {
        assert(v.linked(0));
        assert(w.body[0] == w.tail);
    }
    assert(w.body.no_duplicates()) by {
        assert forall|i: int, j: int| 0 <= i < j < len implies w.body[i] != w.body[j] by {
            if j < len - 1 {
                assert(w.body[i] == v.body[i + 1]);
                assert(w.body[j] == v.body[j + 1]);
            } else {
                assert(w.body[i] == v.body[i + 1]);
            }
        }
    }
    assert forall|i: int| 0 <= i < len implies #[trigger] w.is_snake(w.body[i]) by {
        if i < len - 1 {
            assert(v.is_snake(v.body[i + 1]));
            assert(v.body[i + 1] != v.body[0]);
        }
    }
    assert forall|i: int| 0 <= i < len - 1 implies #[trigger] w.linked(i) by {
        if i < len - 2 {
            assert(v.linked(i + 1));
            assert(v.body[i + 1] != v.body[0]);
            assert(v.is_snake(v.body[i + 1]));
        } else {
            assert(v.body[len - 1] != v.body[0]);
        }
    }
    assert forall|p: (int, int)| #[trigger] w.is_snake(p) implies w.body.contains(p) by {
        if p != n {
            assert(v.is_snake(p));
            let k = choose|k: int| 0 <= k < len && v.body[k] == p;
            assert(k != 0);
            assert(w.body[k - 1] == p);
        } else {
            assert(w.body[len - 1] == n);
        }
    }
    match v.target {
        Some(t) => {
            assert forall|p: (int, int)| w.cell(p) == Some(Cell::Target) implies p == t by {
                assert(v.cell(p) == Some(Cell::Target));
            }
        },
        None => {
            assert(v.is_snake(n));
        },
    }
}

/// A move onto the target keeps the invariant.
pub proof fn lemma_grown(v: GameView, w: GameView)
    requires
        v.inv(),
        v.grows(),
        v.grown(w),
    ensures
        w.inv(),
{
    let n = v.next_head();
    let d = v.heading();
    let len = v.body.len() as int;
    let g1 = v.grown_grid();
    assert(v.is_snake(v.body[len - 1]));
    lemma_put(v.grid, v.width, v.height, n, Cell::Snake(d));
    assert(!v.body.contains(n)) by {
        if v.body.contains(n) {
            let k = choose|k: int| 0 <= k < len && v.body[k] == n;
            assert(v.is_snake(v.body[k]));
        }
    }
    match v.target {
        Some(t0) => {
            assert(t0 == n);
        },
        None => {
            assert(v.is_snake(n));
        },
    }
    // The cell that changes besides the head's: the new target, if any.
    let t = match w.target {
        Some(t) => t,
        None => n,
    };
    assert(cell_at(g1, t.0, t.1) is Some);
    assert(g1[t.1].len() == v.width);
    lemma_put(g1, v.width, v.height, t, Cell::Target);
    assert forall|c: int, r: int| #[trigger] cell_at(w.grid, c, r) == if w.target == Some((c, r)) {
        Some(Cell::Target)
    } else {
        cell_at(g1, c, r)
    } by {}
    assert(w.body.len() == len + 1);
    assert forall|i: int| 0 <= i < len implies #[trigger] w.body[i] == v.body[i] by {}
    assert(w.body[len] == n);
    assert(w.body.no_duplicates()) by {
        assert forall|i: int, j: int| 0 <= i < j < len + 1 implies w.body[i] != w.body[j] by {
            assert(w.body[i] == v.body[i]);
        }
    }
    assert forall|i: int| 0 <= i < len + 1 implies #[trigger] w.is_snake(w.body[i]) by {
        if i < len {
            assert(v.is_snake(v.body[i]));
            assert(v.body[i] != n);
        }
    }
    assert forall|i: int| 0 <= i < len implies #[trigger] w.linked(i) by {
        assert(v.is_snake(v.body[i]));
        assert(v.body[i] != n);
        if i < len - 1 {
            assert(v.linked(i));
        }
    }
    assert forall|p: (int, int)| #[trigger] w.is_snake(p) implies w.body.contains(p) by {
        if p != n {
            assert(v.is_snake(p));
            let k = choose|k: int| 0 <= k < len && v.body[k] == p;
            assert(w.body[k] == p);
        } else {
            assert(w.body[len] == n);
        }
    }
    if let Some(t) = w.target {
        assert forall|p: (int, int)| w.cell(p) == Some(Cell::Target) implies p == t by {
            if p != t {
                assert(v.cell(p) == Some(Cell::Target));
            }
        }
    }
}

/// A snake on a rectangular board, with one target to reach.
pub struct Game {
    board: Board,
    head: (usize, usize),
    tail: (usize, usize),
    width: usize,
    height: usize,
    state: State,
    body: Ghost<Seq<(int, int)>>,
    target: Ghost<Option<(int, int)>>,
}

impl View for Game {
    type V = GameView;

    closed spec fn view(&self) -> GameView {
        GameView {
            grid: self.board@,
            width: self.width as nat,
            height: self.height as nat,
            head: pos(self.head),
            tail: pos(self.tail),
            body: self.body@,
            target: self.target@,
            state: self.state,
        }
    }
}

impl Game {
    /// A game on a board of `width` by `height` with the snake, one cell long
    /// and moving `Down`, at the centre and the target at `column`, `row`.
    /// The target may share the centre only on a board of one cell, which the
    /// snake then fills.
    pub fn with_target(width: usize, height: usize, column: usize, row: usize) -> (g: Game)
        requires
            0 < width,
            0 < height,
            column < width,
            row < height,
            column != width / 2 || row != height / 2 || (width == 1 && height == 1),
        ensures
            g@.inv(),
            g@.state == State::Running,
            g@.width == width,
            g@.height == height,
            g@.head == pos((width / 2, height / 2)),
            g@.tail == g@.head,
            g@.body == seq![g@.head],
            g@.grid == put(
                put(blank(width as nat, height as nat), (column as int, row as int), Cell::Target),
                g@.head,
                Cell::Snake(Direction::Down),
            ),
            g@.target == if column == width / 2 && row == height / 2 {
                None::<(int, int)>
            } else {
                Some((column as int, row as int))
            },
    {
        let mut board = Board::new(width, height);
        let c = width / 2;
        let r = height / 2;
        proof {
            lemma_blank(width as nat, height as nat);
        }
        board.set(column, row, Cell::Target);
        proof {
            lemma_put(blank(width as nat, height as nat), width as nat, height as nat, (column as int, row as int), Cell::Target);
        }
        let ghost g1 = board@;
        board.set(c, r, Cell::Snake(Direction::Down));
        proof {
            lemma_put(g1, width as nat, height as nat, (c as int, r as int), Cell::Snake(Direction::Down));
        }
        let ghost target = if column == c && row == r {
            None
        } else {
            Some((column as int, row as int))
        };
        let ghost body = seq![(c as int, r as int)];
        let g = Game {
            board,
            head: (c, r),
            tail: (c, r),
            width,
            height,
            state: State::Running,
            body: Ghost(body),
            target: Ghost(target),
        };
        proof {
            let v = g@;
            assert forall|p: (int, int)| #[trigger] v.is_snake(p) implies v.body.contains(p) by {
                assert(v.body[0] == (c as int, r as int));
            }
            assert(v.is_snake(v.body[0]));
            if column == c && row == r {
                assert forall|p: (int, int)| v.in_bounds(p) implies v.is_snake(p) by {}
            }
        }
        g
    }

    /// A game on a board of `width` by `height` with the snake, one cell long
    /// and moving `Down`, at the centre and the target in the top-left corner.
    pub fn new(width: usize, height: usize) -> (g: Game)
        requires
            0 < width,
            0 < height,
        ensures
            g@.inv(),
            g@.state == State::Running,
            g@.width == width,
            g@.height == height,
            g@.head == pos((width / 2, height / 2)),
            g@.tail == g@.head,
            g@.body == seq![g@.head],
            g@.grid == put(
                put(blank(width as nat, height as nat), (0, 0), Cell::Target),
                g@.head,
                Cell::Snake(Direction::Down),
            ),
            g@.target == if width == 1 && height == 1 {
                None::<(int, int)>
            } else {
                Some((0int, 0int))
            },
    {
        Game::with_target(width, height, 0, 0)
    }

    /// The cell at `column` and `row`, or `None` off the board.
    pub fn at(&self, column: usize, row: usize) -> (r: Option<Cell>)
        ensures
            r == cell_at(self@.grid, column as int, row as int),
    {
        self.board.at(column, row)
    }

    /// The number of columns.
    pub fn width(&self) -> (w: usize)
        ensures
            w == self@.width,
    {
        self.width
    }

    /// The number of rows.
    pub fn height(&self) -> (h: usize)
        ensures
            h == self@.height,
    {
        self.height
    }

    /// The position of the head.
    pub fn head(&self) -> (p: (usize, usize))
        ensures
            pos(p) == self@.head,
    {
        self.head
    }

    /// The position of the tail.
    pub fn tail(&self) -> (p: (usize, usize))
        ensures
            pos(p) == self@.tail,
    {
        self.tail
    }

    /// Whether the game goes on, or why it ended.
    pub fn current_state(&self) -> (s: State)
        ensures
            s == self@.state,
    {
        self.state
    }

    /// The direction of the next move.
    pub fn get_direction(&self) -> (d: Direction)
        requires
            self@.inv(),
        ensures
            d == self@.heading(),
    {
        let (column, row) = self.head;
        assert(self@.is_snake(self@.body.last()));
        match self.board.at(column, row) {
            Some(Cell::Snake(d)) => d,
            _ => vstd::pervasive::unreached(),
        }
    }

    /// The position one step from `column`, `row` in direction `d`, or `None`
    /// off the board. Both ways off the board, below zero and past the last
    /// column or row, go through the one bounds check of `Board::at`.
    fn next(&self, d: Direction, column: usize, row: usize) -> (r: Option<(usize, usize)>)
        requires
            self@.inv(),
            column < self@.width,
            row < self@.height,
        ensures
            match r {
                Some(p) => pos(p) == step((column as int, row as int), d) && self@.in_bounds(pos(p)),
                None => !self@.in_bounds(step((column as int, row as int), d)),
            },
    {
        let (c, r) = match d {
            Direction::Up => (column, row.wrapping_sub(1)),
            Direction::Left => (column.wrapping_sub(1), row),
            Direction::Down => (column, row.wrapping_add(1)),
            Direction::Right => (column.wrapping_add(1), row),
        };
        match self.board.at(c, r) {
            Some(_) => Some((c, r)),
            None => None,
        }
    }

    /// Whether the next move lands on the target.
    fn grows(&self) -> (r: bool)
        requires
            self@.inv(),
        ensures
            r == self@.grows(),
    {
        let d = self.get_direction();
        let (column, row) = self.head;
        proof {
            assert(self@.is_snake(self@.body.last()));
            assert(self@.grid[self@.head.1].len() == self@.width);
        }
        match self.next(d, column, row) {
            Some((c, r)) => match self.board.at(c, r) {
                Some(Cell::Target) => true,
                _ => false,
            },
            None => false,
        }
    }

    /// Advances the game by one move: off the board the game ends with
    /// `HitWall`, into the snake with `HitSelf`; onto an empty cell the snake
    /// moves; onto the target it grows, and a new target goes to a random
    /// empty cell, if any is left.
    pub fn tick(&mut self)
        requires
            old(self)@.inv(),
            old(self)@.state == State::Running,
        ensures
            final(self)@.inv(),
            old(self)@.ticked(final(self)@),
    {
        let candidates = if self.grows() {
            draw_candidates(self.width, self.height)
        } else {
            Vec::new()
        };
        self.tick_with(candidates.as_slice());
    }

    /// Advances the game by one move, and puts a new target, if the snake
    /// reaches the current one, where `respawn_choice` says: on the first free
    /// cell among `candidates`, else on the first free cell row by row.
    pub fn tick_with(&mut self, candidates: &[(usize, usize)])
        requires
            old(self)@.inv(),
            old(self)@.state == State::Running,
        ensures
            final(self)@.inv(),
            old(self)@.ticked(final(self)@),
            old(self)@.grows() ==> respawn_choice(
                old(self)@.grown_grid(),
                candidates@,
                final(self)@.target,
            ),
    {
        let ghost v = self@;
        let d = self.get_direction();
        let (column, row) = self.head;
        proof {
            assert(v.is_snake(v.body.last()));
            assert(v.grid[v.head.1].len() == v.width);
        }
        match self.next(d, column, row) {
            None => {
                self.state = State::Terminated(Cause::HitWall);
                assert(self@ == v.stopped(Cause::HitWall));
                proof {
                    lemma_stopped(v, Cause::HitWall);
                }
            },
            Some((nc, nr)) => {
                match self.board.at(nc, nr) {
                    Some(Cell::Empty) => {
                        let (tc, tr) = self.tail;
                        proof {
                            assert(v.is_snake(v.body[0]));
                            assert(v.grid[v.tail.1].len() == v.width);
                            if v.body.len() > 1 {
                                assert(v.linked(0));
                                assert(v.is_snake(v.body[1]));
                                assert(v.grid[v.body[1].1].len() == v.width);
                            }
                        }
                        let dt = match self.board.at(tc, tr) {
                            Some(Cell::Snake(dt)) => dt,
                            _ => vstd::pervasive::unreached(),
                        };
                        // The tail's next cell is the body's second one, or
                        // the new head; either way it is on the board.
                        let (ntc, ntr) = self.next(dt, tc, tr).unwrap();
                        self.board.set(nc, nr, Cell::Snake(d));
                        proof {
                            lemma_put(v.grid, v.width, v.height, pos((nc, nr)), Cell::Snake(d));
                        }
                        self.board.set(tc, tr, Cell::Empty);
                        self.head = (nc, nr);
                        self.tail = (ntc, ntr);
                        let ghost body = v.body.drop_first().push(pos((nc, nr)));
                        self.body = Ghost(body);
                        proof {
                            assert(self@ == v.moved());
                            lemma_moved(v);
                        }
                    },
                    Some(Cell::Target) => {
                        self.board.set(nc, nr, Cell::Snake(d));
                        proof {
                            lemma_put(v.grid, v.width, v.height, pos((nc, nr)), Cell::Snake(d));
                        }
                        self.head = (nc, nr);
                        let ghost body = v.body.push(pos((nc, nr)));
                        self.body = Ghost(body);
                        let t = place_target(&mut self.board, self.width, self.height, candidates);
                        let ghost target = match t {
                            Some(p) => Some(pos(p)),
                            None => None,
                        };
                        self.target = Ghost(target);
                        proof {
                            let g1 = v.grown_grid();
                            let w = self@;
                            match v.target {
                                Some(t0) => assert(t0 == pos((nc, nr))),
                                None => assert(v.is_snake(pos((nc, nr)))),
                            }
                            match target {
                                Some(p) => {
                                    lemma_first_free_is_free(g1, candidates@, 0);
                                    assert(is_free_in(g1, p));
                                    assert(v.cell(p) == Some(Cell::Target) ==> p == pos((nc, nr)));
                                    assert(cell_at(g1, p.0, p.1) != Some(Cell::Target));
                                },
                                None => {
                                    assert forall|q: (int, int)| w.in_bounds(q) implies w.is_snake(q) by {
                                        assert(!is_free_in(g1, q));
                                        assert(g1[q.1].len() == v.width);
                                    }
                                },
                            }
                            assert(v.grown(w));
                            lemma_grown(v, w);
                        }
                    },
                    _ => {
                        self.state = State::Terminated(Cause::HitSelf);
                        assert(self@ == v.stopped(Cause::HitSelf));
                        proof {
                            lemma_stopped(v, Cause::HitSelf);
                        }
                    },
                }
            },
        }
    }

    /// Makes `d` the direction of the next move. Nothing moves until the next
    /// tick, and nothing keeps the snake from turning back into itself.
    pub fn set_direction(&mut self, d: Direction)
        requires
            old(self)@.inv(),
        ensures
            final(self)@.inv(),
            final(self)@ == (GameView {
                grid: put(old(self)@.grid, old(self)@.head, Cell::Snake(d)),
                ..old(self)@
            }),
    {
        let ghost v = self@;
        let (column, row) = self.head;
        proof {
            assert(v.is_snake(v.body.last()));
            lemma_put(v.grid, v.width, v.height, v.head, Cell::Snake(d));
        }
        self.board.set(column, row, Cell::Snake(d));
        proof {
            let w = self@;
            let n = (v.body.len() - 1) as int;
            assert forall|i: int| 0 <= i < w.body.len() implies #[trigger] w.is_snake(w.body[i]) by {
                assert(v.is_snake(v.body[i]));
            }
            assert forall|i: int| 0 <= i < w.body.len() - 1 implies #[trigger] w.linked(i) by {
                assert(v.linked(i));
                assert(v.body[i] != v.body[n]);
            }
            assert forall|p: (int, int)| #[trigger] w.is_snake(p) implies w.body.contains(p) by {
                if p != v.head {
                    assert(v.is_snake(p));
                }
            }
            match v.target {
                Some(t) => {
                    assert(t != v.head);
                    assert forall|p: (int, int)| w.cell(p) == Some(Cell::Target) implies p == t by {
                        assert(v.cell(p) == Some(Cell::Target));
                    }
                }
                None => {
                    assert forall|p: (int, int)| w.in_bounds(p) implies w.is_snake(p) by {
                        assert(v.is_snake(p));
                    }
                }
            }
        }
    }
}

} // verus!
