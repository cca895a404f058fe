//! What holds of every game, over every tick.
use vstd::prelude::*;

use crate::board::{cell_at, is_grid, step, Cell};
use crate::game::{direction_at, lemma_grown, lemma_moved, lemma_stopped, Cause, GameView, State};

verus! {

/// The `n` cells met by starting at `from` and stepping, each time, in the
/// direction stored in the cell at hand.
pub open spec fn walk(grid: Seq<Seq<Cell>>, from: (int, int), n: nat) -> Seq<(int, int)>
    decreases n,
{
    if n == 0 {
        Seq::empty()
    } else {
        seq![from] + walk(grid, step(from, direction_at(grid, from)), (n - 1) as nat)
    }
}

/// The walk from the `i`-th cell of the body covers the rest of the body.
proof fn lemma_walk_from(v: GameView, i: int)
    requires
        v.inv(),
        0 <= i < v.body.len(),
    ensures
        walk(v.grid, v.body[i], (v.body.len() - i) as nat) == v.body.subrange(i, v.body.len() as int),
    decreases v.body.len() - i,
{
    let len = v.body.len() as int;
    if i == len - 1 {
        let next = step(v.body[i], direction_at(v.grid, v.body[i]));
        assert(walk(v.grid, next, 0) =~= Seq::<(int, int)>::empty());
        assert(walk(v.grid, v.body[i], 1) =~= v.body.subrange(i, len));
    } else {
        assert(v.linked(i));
        lemma_walk_from(v, i + 1);
        assert(walk(v.grid, v.body[i], (len - i) as nat) =~= v.body.subrange(i, len));
    }
}

/// A tick keeps the invariant: every state a game reaches satisfies it.
pub proof fn tick_keeps_invariant(before: GameView, after: GameView)
    requires
        before.inv(),
        before.ticked(after),
    ensures
        after.inv(),
{
    let n = before.next_head();
    if !before.in_bounds(n) {
        lemma_stopped(before, Cause::HitWall);
    } else if before.is_snake(n) {
        lemma_stopped(before, Cause::HitSelf);
    } else if before.cell(n) == Some(Cell::Empty) {
        lemma_moved(before);
    } else {
        lemma_grown(before, after);
    }
}

/// Path consistency: walking from the tail, each step in the direction stored
/// in the cell at hand, for as many cells as the snake is long, passes only
/// through the snake's cells and ends at the head.
pub proof fn path_consistency(v: GameView)
    requires
        v.inv(),
    ensures
        walk(v.grid, v.tail, v.body.len()) == v.body,
        walk(v.grid, v.tail, v.body.len()).last() == v.head,
        forall|i: int|
            0 <= i < v.body.len() ==> #[trigger] v.is_snake(walk(v.grid, v.tail, v.body.len())[i]),
{
    lemma_walk_from(v, 0);
    assert(v.body.subrange(0, v.body.len() as int) =~= v.body);
}

/// Length conservation: a move onto an empty cell leaves the snake as long as
/// it was, and a move onto the target makes it one cell longer.
pub proof fn length_conservation(before: GameView, after: GameView)
    requires
        before.inv(),
        before.ticked(after),
    ensures
        before.in_bounds(before.next_head()) && before.cell(before.next_head()) == Some(Cell::Empty)
            ==> after.body.len() == before.body.len(),
        before.grows() ==> after.body.len() == before.body.len() + 1,
{
}

/// Target uniqueness: after a tick that does not end the game, exactly one
/// cell holds the target, unless the snake fills the board.
pub proof fn target_uniqueness(before: GameView, after: GameView)
    requires
        before.inv(),
        before.state == State::Running,
        before.ticked(after),
        after.state == State::Running,
    ensures
        after.is_full() || exists|t: (int, int)| #[trigger] after.is_only_target(t),
{
    tick_keeps_invariant(before, after);
    if let Some(t) = after.target {
        assert(after.is_only_target(t));
    }
}

/// Bounds symmetry: on a board of `width` by `height` there is a cell at
/// column `c` and row `r` exactly when neither is negative, `c` is below
/// `width` and `r` below `height`.
pub proof fn bounds_symmetry(grid: Seq<Seq<Cell>>, width: nat, height: nat, c: int, r: int)
    requires
        is_grid(grid, width, height),
    ensures
        (cell_at(grid, c, r) is None) <==> (c < 0 || c >= width || r < 0 || r >= height),
{
    if 0 <= r < height {
        assert(grid[r].len() == width);
    }
}

/// Termination correctness: a tick ends the game with `HitWall` exactly when
/// the next move leaves the board, and with `HitSelf` exactly when it enters
/// a cell of the snake; it changes no cell in either case.
pub proof fn termination_correctness(before: GameView, after: GameView)
    requires
        before.inv(),
        before.state == State::Running,
        before.ticked(after),
    ensures
        after.state == State::Terminated(Cause::HitWall) <==> !before.in_bounds(before.next_head()),
        after.state == State::Terminated(Cause::HitSelf) <==> before.is_snake(before.next_head()),
        after.state is Terminated ==> after.grid == before.grid,
{
    let n = before.next_head();
    if before.is_snake(n) {
        assert(before.grid[n.1].len() == before.width);
    }
}

} // verus!
