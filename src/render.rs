//! What to draw for each cell of a game.
use vstd::prelude::*;

use crate::board::{cell_at, Cell};
use crate::game::Game;

verus! {

/// The paint for a cell: `snake` for the snake, `target` for the target,
/// `background` for an empty cell.
pub open spec fn paint_for(cell: Cell, snake: u32, target: u32, background: u32) -> u32 {
    match cell {
        Cell::Empty => background,
        Cell::Target => target,
        Cell::Snake(_) => snake,
    }
}

/// The paint for every cell of `game`, row by row.
pub fn paint_plan(game: &Game, snake: u32, target: u32, background: u32) -> (plan: Vec<Vec<u32>>)
    requires
        game@.inv(),
    ensures
        plan@.len() == game@.height,
        forall|r: int| 0 <= r < game@.height ==> #[trigger] plan@[r]@.len() == game@.width,
        forall|c: int, r: int|
            0 <= c < game@.width && 0 <= r < game@.height ==> #[trigger] plan@[r]@[c] == paint_for(
                game@.grid[r][c],
                snake,
                target,
                background,
            ),
{
    let width = game.width();
    let height = game.height();
    let mut plan: Vec<Vec<u32>> = Vec::with_capacity(height);
    let mut r: usize = 0;
    while r < height
        invariant
            game@.inv(),
            width == game@.width,
            height == game@.height,
            r <= height,
            plan@.len() == r,
            forall|i: int| 0 <= i < r ==> #[trigger] plan@[i]@.len() == width,
            forall|c: int, i: int|
                0 <= c < width && 0 <= i < r ==> #[trigger] plan@[i]@[c] == paint_for(
                    game@.grid[i][c],
                    snake,
                    target,
                    background,
                ),
        decreases height - r,
    {
        let mut line: Vec<u32> = Vec::with_capacity(width);
        let mut c: usize = 0;
        while c < width
            invariant
                game@.inv(),
                width == game@.width,
                height == game@.height,
                r < height,
                c <= width,
                line@.len() == c,
                forall|j: int| 0 <= j < c ==> #[trigger] line@[j] == paint_for(
                    game@.grid[r as int][j],
                    snake,
                    target,
                    background,
                ),
            decreases width - c,
        {
            proof {
                assert(game@.grid[r as int].len() == width);
            }
            let paint = match game.at(c, r) {
                Some(Cell::Empty) => background,
                Some(Cell::Target) => target,
                Some(Cell::Snake(_)) => snake,
                None => vstd::pervasive::unreached(),
            };
            line.push(paint);
            c = c + 1;
        }
        plan.push(line);
        r = r + 1;
    }
    plan
}

} // verus!
