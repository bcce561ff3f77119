//! What the terminal shows: the frame of glyphs, the score count-up at the
//! end of a session, and the menu choices.
use vstd::prelude::*;
use crate::grid::{Cell, ROWS, COLS, is_wall, wall_at};
use crate::game::{State, StateView};

verus! {

/// Glyph of an apple cell.
pub const APPLE_GLYPH: char = 'o';

/// Glyph of a snake cell.
pub const SNAKE_GLYPH: char = 'O';

/// Glyph of a wall cell.
pub const WALL_GLYPH: char = '#';

/// Glyph of an empty cell.
pub const EMPTY_GLYPH: char = ' ';

/// How long the final score stays on screen, in milliseconds.
pub const FINAL_SCORE_MILLIS: u64 = 3000;

/// The glyph drawn at `p`: apples are drawn over the snake, the snake over
/// the wall.
pub open spec fn glyph(v: StateView, p: Cell) -> char {
    if v.apples.contains(p) {
        APPLE_GLYPH
    } else if v.snake.contains(p) {
        SNAKE_GLYPH
    } else if is_wall(p) {
        WALL_GLYPH
    } else {
        EMPTY_GLYPH
    }
}

fn holds(v: &Vec<Cell>, p: Cell) -> (r: bool)
    ensures
        r == v@.contains(p),
{
    let mut i: usize = 0;
    while i < v.len()
        invariant
            0 <= i <= v@.len(),
            forall|j: int| 0 <= j < i ==> v@[j] != p,
        decreases v@.len() - i,
    {
        if v[i].0 == p.0 && v[i].1 == p.1 {
            return true;
        }
        i = i + 1;
    }
    false
}

/// The grid as rows of glyphs, `ROWS` rows of `COLS` glyphs each.
pub fn frame(s: &State) -> (r: Vec<Vec<char>>)
    requires
        s.wf(),
    ensures
        r@.len() == ROWS,
        forall|i: int| 0 <= i < ROWS ==> #[trigger] r@[i]@.len() == COLS,
        forall|i: int, j: int|
            0 <= i < ROWS && 0 <= j < COLS ==> #[trigger] r@[i]@[j] == glyph(
                s@,
                (i as i32, j as i32),
            ),
{
    let snake = s.snake();
    let apples = s.apples();
    let mut out: Vec<Vec<char>> = Vec::new();
    let mut x: i32 = 0;
    while x < ROWS
        invariant
            0 <= x <= ROWS,
            out@.len() == x,
            snake@ == s@.snake,
            apples@.to_set() == s@.apples,
            forall|i: int| 0 <= i < x ==> #[trigger] out@[i]@.len() == COLS,
            forall|i: int, j: int|
                0 <= i < x && 0 <= j < COLS ==> #[trigger] out@[i]@[j] == glyph(
                    s@,
                    (i as i32, j as i32),
                ),
        decreases ROWS - x,
    {
        let mut row: Vec<char> = Vec::new();
        let mut y: i32 = 0;
        while y < COLS
            invariant
                0 <= x < ROWS,
                0 <= y <= COLS,
                row@.len() == y,
                snake@ == s@.snake,
                apples@.to_set() == s@.apples,
                forall|j: int| 0 <= j < y ==> #[trigger] row@[j] == glyph(s@, (x, j as i32)),
            decreases COLS - y,
        {
            let p: Cell = (x, y);
            let g = if holds(apples, p) {
                APPLE_GLYPH
            } else if holds(snake, p) {
                SNAKE_GLYPH
            } else if wall_at(p) {
                WALL_GLYPH
            } else {
                EMPTY_GLYPH
            };
            row.push(g);
            y = y + 1;
        }
        out.push(row);
        x = x + 1;
    }
    out
}

/// The count-up shown when a session ends with score `h`: pairs of the
/// score on screen and how long it stays there, in milliseconds. The shown
/// score climbs from 1 to `h - 1`, the pause before it is `1000 / (h - k)`
/// for the `k`-th value, so the count slows down as it nears `h`. The final
/// score itself then stays for `FINAL_SCORE_MILLIS`.
pub fn highscore_steps(h: usize) -> (r: Vec<(usize, u64)>)
    ensures
        r@.len() == if h > 1 { h - 1 } else { 0 },
        forall|k: int|
            0 <= k < r@.len() ==> #[trigger] r@[k] == ((k + 1) as usize, (1000int / (h - 1 - k))
                as u64),
{
    let mut out: Vec<(usize, u64)> = Vec::new();
    let mut counter: usize = h;
    while counter > 1
        invariant
            1 <= h ==> 1 <= counter <= h,
            h == 0 ==> counter == 0,
            out@.len() == h - counter,
            forall|k: int|
                0 <= k < out@.len() ==> #[trigger] out@[k] == ((k + 1) as usize, (1000int / (h - 1
                    - k)) as u64),
        decreases counter,
    {
        counter = counter - 1;
        out.push((h - counter, 1000 / (counter as u64)));
    }
    out
}

/// What the menu does with a key.
#[derive(Clone, Copy, Debug, PartialEq, Eq, Structural)]
pub enum MenuAction {
    /// Start a session.
    Play,
    /// Leave the program.
    Quit,
    /// Show the menu again.
    Stay,
}

/// The menu's answer to a key: `p` plays, `q` quits, anything else (the
/// multiplayer entries `h` and `j` included, which do nothing yet) keeps the
/// menu up.
pub fn menu_action(key: Option<char>) -> (r: MenuAction)
    ensures
        r == (match key {
            Some('p') => MenuAction::Play,
            Some('q') => MenuAction::Quit,
            _ => MenuAction::Stay,
        }),
{
    match key {
        Some('p') => MenuAction::Play,
        Some('q') => MenuAction::Quit,
        _ => MenuAction::Stay,
    }
}

} // verus!
