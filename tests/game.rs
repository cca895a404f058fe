use snake::board::{Cell, Direction};
use snake::board::Direction::{Down, Left, Right, Up};
use snake::game::{Cause, Game, State};

fn count(game: &Game, want: fn(&Cell) -> bool) -> usize {
    let mut n = 0;
    for r in 0..game.height() {
        for c in 0..game.width() {
            if want(&game.at(c, r).unwrap()) {
                n += 1;
            }
        }
    }
    n
}

fn snake_len(game: &Game) -> usize {
    count(game, |c| matches!(c, Cell::Snake(_)))
}

fn targets(game: &Game) -> usize {
    count(game, |c| *c == Cell::Target)
}

fn cells(game: &Game) -> Vec<Option<Cell>> {
    let mut v = Vec::new();
    for r in 0..game.height() {
        for c in 0..game.width() {
            v.push(game.at(c, r));
        }
    }
    v
}

#[test]
fn game_tick() {
    let mut game = Game::new(80, 24);
    game.set_direction(Up);

    let (column, row) = game.head();
    assert_eq!(Some(Cell::Snake(Up)), game.at(column, row));

    game.tick();
    assert_eq!((column, row - 1), game.head());
    assert_eq!((column, row - 1), game.tail());

    let (column, row) = game.head();
    game.set_direction(Left);
    game.tick();
    assert_eq!((column - 1, row), game.head());
    assert_eq!(game.head(), game.tail());

    let (column, row) = game.head();
    game.set_direction(Right);
    game.tick();
    assert_eq!((column + 1, row), game.head());
    assert_eq!(game.head(), game.tail());

    let (column, row) = game.head();
    game.set_direction(Down);
    game.tick();
    assert_eq!((column, row + 1), game.head());
    assert_eq!(game.head(), game.tail());
}

#[test]
fn target() {
    // The target sits right above the head, so the first move up eats it.
    let mut game = Game::with_target(80, 24, 40, 11);
    game.set_direction(Direction::Up);

    let (column, row) = game.head();
    let orig_tail = game.tail();
    game.tick();
    assert_eq!((column, row - 1), game.head());
    assert_eq!(orig_tail, game.tail());
}

#[test]
fn new_game_layout() {
    let game = Game::new(80, 24);
    assert_eq!((40, 12), game.head());
    assert_eq!((40, 12), game.tail());
    assert_eq!(Direction::Down, game.get_direction());
    assert_eq!(Some(Cell::Target), game.at(0, 0));
    assert_eq!(Some(Cell::Snake(Direction::Down)), game.at(40, 12));
    assert_eq!(1, snake_len(&game));
    assert_eq!(1, targets(&game));
    assert_eq!(State::Running, game.current_state());
    assert_eq!((80, 24), (game.width(), game.height()));
}

#[test]
fn new_game_on_one_cell_has_no_target() {
    let game = Game::new(1, 1);
    assert_eq!(Some(Cell::Snake(Direction::Down)), game.at(0, 0));
    assert_eq!(0, targets(&game));
}

#[test]
fn game_bounds_at_every_edge_and_corner() {
    let game = Game::new(6, 4);
    for &(c, r) in &[(0, 0), (5, 0), (0, 3), (5, 3), (2, 0), (0, 2), (5, 1), (2, 3)] {
        assert!(game.at(c, r).is_some(), "({}, {})", c, r);
    }
    for &(c, r) in &[(6, 0), (0, 4), (6, 4), (6, 3), (5, 4), (usize::MAX, 1), (1, usize::MAX)] {
        assert_eq!(None, game.at(c, r), "({}, {})", c, r);
    }
}

#[test]
fn set_direction_changes_only_the_head() {
    let mut game = Game::new(9, 9);
    let before = cells(&game);
    game.set_direction(Direction::Right);
    assert_eq!(Direction::Right, game.get_direction());
    assert_eq!(Some(Cell::Snake(Direction::Right)), game.at(4, 4));
    let after = cells(&game);
    let changed = before.iter().zip(after.iter()).filter(|(a, b)| a != b).count();
    assert_eq!(1, changed);
    assert_eq!((4, 4), game.head());
}

#[test]
fn straight_growth() {
    let mut game = Game::with_target(10, 10, 5, 6);
    assert_eq!((5, 5), game.head());
    assert_eq!(Direction::Down, game.get_direction());
    assert_eq!(Some(Cell::Target), game.at(5, 6));
    assert_eq!(1, snake_len(&game));

    game.tick();
    assert_eq!(State::Running, game.current_state());
    assert_eq!((5, 6), game.head());
    assert_eq!((5, 5), game.tail());
    assert_eq!(2, snake_len(&game));
    assert_eq!(1, targets(&game));
    assert_eq!(Some(Cell::Snake(Direction::Down)), game.at(5, 5));
    assert_eq!(Some(Cell::Snake(Direction::Down)), game.at(5, 6));
}

#[test]
fn directional_turns() {
    let mut game = Game::new(10, 10);
    let (column, row) = game.head();
    game.set_direction(Direction::Left);
    game.tick();
    assert_eq!(State::Running, game.current_state());
    assert_eq!((column - 1, row), game.head());
    assert_eq!(game.head(), game.tail());
    assert_eq!(Some(Cell::Empty), game.at(column, row));
    assert_eq!(Some(Cell::Snake(Direction::Left)), game.at(column - 1, row));
    assert_eq!(1, snake_len(&game));
}

#[test]
fn wall_death() {
    let mut game = Game::new(1, 3);
    assert_eq!((0, 1), game.head());
    game.set_direction(Direction::Left);
    let before = cells(&game);
    game.tick();
    assert_eq!(State::Terminated(Cause::HitWall), game.current_state());
    assert_eq!(before, cells(&game));
    assert_eq!((0, 1), game.head());
}

/// Drives the snake from the centre of a `w` by `h` board to the edge in
/// direction `d`, then one move further.
fn run_into_wall(w: usize, h: usize, d: Direction) -> (Game, Vec<Option<Cell>>) {
    let mut game = Game::with_target(w, h, 0, h - 1);
    game.set_direction(d);
    loop {
        let (c, r) = game.head();
        let at_edge = match d {
            Direction::Up => r == 0,
            Direction::Down => r == h - 1,
            Direction::Left => c == 0,
            Direction::Right => c == w - 1,
        };
        if at_edge {
            break;
        }
        game.tick();
        assert_eq!(State::Running, game.current_state());
    }
    let before = cells(&game);
    game.tick();
    (game, before)
}

#[test]
fn every_wall_ends_the_game() {
    for &d in &[Direction::Up, Direction::Left, Direction::Down, Direction::Right] {
        let (game, before) = run_into_wall(9, 7, d);
        assert_eq!(State::Terminated(Cause::HitWall), game.current_state(), "{:?}", d);
        assert_eq!(before, cells(&game), "{:?}", d);
    }
}

#[test]
fn corners_end_the_game_both_ways() {
    // From each corner, both moves that leave the board end the game.
    for &(w, h) in &[(1usize, 1usize), (2, 2)] {
        for &d in &[Direction::Up, Direction::Left, Direction::Down, Direction::Right] {
            let (game, _) = run_into_wall(w, h, d);
            assert_eq!(State::Terminated(Cause::HitWall), game.current_state());
        }
    }
}

#[test]
fn turning_back_hits_self() {
    let mut game = Game::with_target(10, 10, 5, 6);
    game.tick();
    assert_eq!(2, snake_len(&game));
    game.set_direction(Direction::Up);
    let before = cells(&game);
    game.tick();
    assert_eq!(State::Terminated(Cause::HitSelf), game.current_state());
    assert_eq!(before, cells(&game));
}

#[test]
fn running_into_the_body_hits_self() {
    // Grow to length 4 along a column, then curl back into the body.
    let mut game = Game::with_target(10, 10, 5, 6);
    game.tick_with(&[(5, 7)]);
    game.tick_with(&[(5, 8)]);
    game.tick_with(&[(0, 0)]);
    assert_eq!(4, snake_len(&game));
    assert_eq!((5, 8), game.head());
    game.set_direction(Direction::Right);
    game.tick();
    game.set_direction(Direction::Up);
    game.tick();
    assert_eq!(State::Running, game.current_state());
    game.set_direction(Direction::Left);
    game.tick();
    assert_eq!(State::Terminated(Cause::HitSelf), game.current_state());
}

#[test]
fn moves_keep_the_length() {
    let mut game = Game::with_target(10, 10, 5, 6);
    game.tick_with(&[(5, 7)]);
    game.tick_with(&[(0, 0)]);
    assert_eq!(3, snake_len(&game));
    game.set_direction(Direction::Left);
    for _ in 0..4 {
        game.tick();
        assert_eq!(State::Running, game.current_state());
        assert_eq!(3, snake_len(&game));
        assert_eq!(1, targets(&game));
    }
    assert_eq!((1, 7), game.head());
    assert_eq!((3, 7), game.tail());
}

#[test]
fn growth_adds_one_cell_and_one_new_target() {
    let mut game = Game::with_target(10, 10, 5, 6);
    let mut len = snake_len(&game);
    for _ in 0..3 {
        let (c, r) = game.head();
        game.tick_with(&[(c, r + 2)]);
        assert_eq!(len + 1, snake_len(&game));
        assert_eq!(1, targets(&game));
        assert_eq!(Some(Cell::Target), game.at(c, r + 2));
        len += 1;
    }
}

#[test]
fn respawn_takes_the_first_free_candidate() {
    let mut game = Game::with_target(10, 10, 5, 6);
    // (5, 5) stays the tail and (5, 6) becomes the head; (10, 3) is off the
    // board: all three are passed over.
    game.tick_with(&[(5, 5), (5, 6), (10, 3), (2, 3), (4, 4)]);
    assert_eq!(Some(Cell::Target), game.at(2, 3));
    assert_eq!(Some(Cell::Empty), game.at(4, 4));
    assert_eq!(1, targets(&game));
}

#[test]
fn respawn_falls_back_to_the_first_free_cell() {
    let mut game = Game::with_target(10, 10, 5, 6);
    game.tick_with(&[]);
    assert_eq!(Some(Cell::Target), game.at(0, 0));
    assert_eq!(1, targets(&game));

    // With the corner taken by the snake, the next cell of the row is used.
    let mut game = Game::with_target(3, 3, 0, 1);
    game.set_direction(Direction::Left);
    game.tick_with(&[]);
    assert_eq!(Some(Cell::Target), game.at(0, 0));
    game.set_direction(Direction::Up);
    game.tick_with(&[(0, 1), (1, 1)]);
    assert_eq!((0, 0), game.head());
    assert_eq!(Some(Cell::Target), game.at(1, 0));
    assert_eq!(1, targets(&game));
}

#[test]
fn filling_the_board_leaves_no_target() {
    let mut game = Game::new(2, 1);
    assert_eq!((1, 0), game.head());
    game.set_direction(Direction::Left);
    game.tick();
    assert_eq!(State::Running, game.current_state());
    assert_eq!(2, snake_len(&game));
    assert_eq!(0, targets(&game));
    game.tick();
    assert_eq!(State::Terminated(Cause::HitWall), game.current_state());
}

#[test]
fn random_respawn_lands_on_an_empty_cell() {
    for _ in 0..50 {
        let mut game = Game::with_target(4, 3, 2, 2);
        game.tick();
        assert_eq!(State::Running, game.current_state());
        assert_eq!(2, snake_len(&game));
        assert_eq!(1, targets(&game));
        assert_ne!(Some(Cell::Target), game.at(2, 1));
        assert_ne!(Some(Cell::Target), game.at(2, 2));
    }
}

#[test]
fn random_respawn_on_a_nearly_full_board() {
    // A 3 by 1 board: after the first meal only one cell is free.
    let mut game = Game::with_target(3, 1, 0, 0);
    game.set_direction(Direction::Left);
    game.tick();
    assert_eq!(State::Running, game.current_state());
    assert_eq!(Some(Cell::Target), game.at(2, 0));
    assert_eq!(1, targets(&game));
}
