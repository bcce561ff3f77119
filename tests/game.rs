use snake::game::{Key, State, BASE_SPEED};
use snake::grid::{step_cell, wall_at, wall_cells, Heading, COLS, ROWS};
use snake::screen::{
    frame, highscore_steps, menu_action, MenuAction, APPLE_GLYPH, EMPTY_GLYPH, SNAKE_GLYPH,
    WALL_GLYPH,
};

fn state(snake: Vec<(i32, i32)>, heading: Heading, apples: Vec<(i32, i32)>) -> State {
    State::from_parts(snake, heading, apples).expect("valid state")
}

#[test]
fn three_ticks_reach_and_eat_apple() {
    let mut s = State::new((5, 5), (5, 8));
    assert_eq!(s.heading(), Heading::Right);
    assert_eq!(s.speed(), BASE_SPEED);
    assert!(s.advance(None, (10, 10)));
    assert_eq!(s.snake(), &vec![(5, 6)]);
    assert!(s.advance(None, (10, 10)));
    assert_eq!(s.snake(), &vec![(5, 7)]);
    assert!(s.advance(None, (10, 10)));
    assert_eq!(s.snake(), &vec![(5, 8), (5, 7)]);
    assert_eq!(s.score(), 2);
    assert_eq!(s.speed(), BASE_SPEED + 1);
    assert_eq!(s.apples(), &vec![(10, 10)]);
}

#[test]
fn move_left_drops_tail() {
    let mut s = state(vec![(5, 5), (5, 6), (5, 7)], Heading::Left, vec![(10, 10)]);
    assert!(s.advance(None, (3, 3)));
    assert_eq!(s.snake(), &vec![(5, 4), (5, 5), (5, 6)]);
    assert_eq!(s.apples(), &vec![(10, 10)]);
    assert_eq!(s.speed(), BASE_SPEED + 2);
}

#[test]
fn reversal_into_body_ends_session() {
    let mut s = state(vec![(5, 5), (5, 6)], Heading::Left, vec![(10, 10)]);
    assert!(!s.advance(Some(Key::Right), (3, 3)));
    assert_eq!(s.snake(), &vec![(5, 5), (5, 6)]);
    assert_eq!(s.apples(), &vec![(10, 10)]);
    assert_eq!(s.speed(), BASE_SPEED + 1);
    assert_eq!(s.heading(), Heading::Right);
}

#[test]
fn moving_into_tail_cell_ends_session() {
    let mut s = state(vec![(5, 5), (6, 5), (6, 6), (5, 6)], Heading::Right, vec![(1, 1)]);
    assert!(!s.advance(None, (3, 3)));
    assert_eq!(s.score(), 4);
}

#[test]
fn plain_move_keeps_length_and_shifts_body() {
    let mut s = state(vec![(5, 5), (6, 5), (7, 5)], Heading::Up, vec![(1, 1)]);
    assert!(s.advance(Some(Key::Other), (3, 3)));
    assert_eq!(s.snake(), &vec![(4, 5), (5, 5), (6, 5)]);
    assert_eq!(s.heading(), Heading::Up);
    assert_eq!(s.speed(), BASE_SPEED + 2);
}

#[test]
fn eating_replaces_apple_and_speeds_up() {
    let mut s = state(vec![(5, 5)], Heading::Down, vec![(6, 5), (1, 1)]);
    assert!(s.advance(None, (9, 9)));
    assert_eq!(s.snake(), &vec![(6, 5), (5, 5)]);
    assert_eq!(s.speed(), BASE_SPEED + 1);
    let mut apples = s.apples().clone();
    apples.sort();
    assert_eq!(apples, vec![(1, 1), (9, 9)]);
}

#[test]
fn spawn_on_existing_apple_keeps_one_copy() {
    let mut s = state(vec![(5, 5)], Heading::Down, vec![(6, 5), (1, 1)]);
    assert!(s.advance(None, (1, 1)));
    assert_eq!(s.apples(), &vec![(1, 1)]);
}

#[test]
fn wrap_through_each_wall() {
    assert_eq!(step_cell((5, COLS - 2), Heading::Right), (5, 1));
    assert_eq!(step_cell((5, 1), Heading::Left), (5, COLS - 2));
    assert_eq!(step_cell((ROWS - 2, 7), Heading::Down), (1, 7));
    assert_eq!(step_cell((1, 7), Heading::Up), (ROWS - 2, 7));
    assert_eq!(step_cell((1, 1), Heading::Up), (ROWS - 2, 1));
    assert_eq!(step_cell((5, 5), Heading::Right), (5, 6));
}

#[test]
fn snake_wraps_during_tick() {
    let mut s = state(vec![(3, 40), (3, 39)], Heading::Right, vec![(10, 10)]);
    assert!(s.advance(None, (2, 2)));
    assert_eq!(s.snake(), &vec![(3, 1), (3, 40)]);
}

#[test]
fn input_sets_heading_only_for_direction_keys() {
    let mut s = State::new((5, 5), (9, 9));
    s.input(Key::Up);
    assert_eq!(s.heading(), Heading::Up);
    s.input(Key::Other);
    assert_eq!(s.heading(), Heading::Up);
    s.input(Key::Left);
    assert_eq!(s.heading(), Heading::Left);
    s.input(Key::Down);
    assert_eq!(s.heading(), Heading::Down);
    s.input(Key::Right);
    assert_eq!(s.heading(), Heading::Right);
    assert_eq!(s.snake(), &vec![(5, 5)]);
}

#[test]
fn from_parts_rejects_invalid_states() {
    assert!(State::from_parts(vec![], Heading::Up, vec![(1, 1)]).is_none());
    assert!(State::from_parts(vec![(1, 1)], Heading::Up, vec![]).is_none());
    assert!(State::from_parts(vec![(0, 1)], Heading::Up, vec![(2, 2)]).is_none());
    assert!(State::from_parts(vec![(1, 1)], Heading::Up, vec![(2, COLS - 1)]).is_none());
    assert!(State::from_parts(vec![(1, 1), (1, 1)], Heading::Up, vec![(2, 2)]).is_none());
    assert!(State::from_parts(vec![(1, 1)], Heading::Up, vec![(2, 2), (2, 2)]).is_none());
    assert!(State::from_parts(vec![(1, 1)], Heading::Up, vec![(2, 2)]).is_some());
}

#[test]
fn init_places_snake_and_apple_inside() {
    for _ in 0..50 {
        let s = State::init();
        assert_eq!(s.score(), 1);
        assert_eq!(s.heading(), Heading::Right);
        assert_eq!(s.speed(), BASE_SPEED);
        assert_eq!(s.apples().len(), 1);
        let cells = [s.snake()[0], s.apples()[0]];
        for (r, c) in cells {
            assert!(1 <= r && r <= ROWS - 2 && 1 <= c && c <= COLS - 2);
        }
    }
}

#[test]
fn update_plays_a_tick() {
    let mut s = state(vec![(5, 5)], Heading::Right, vec![(5, 6)]);
    assert!(s.update(None));
    assert_eq!(s.snake(), &vec![(5, 6), (5, 5)]);
    assert_eq!(s.speed(), BASE_SPEED + 1);
    let (r, c) = s.apples()[0];
    assert!(1 <= r && r <= ROWS - 2 && 1 <= c && c <= COLS - 2);
}

#[test]
fn tick_millis_follows_speed() {
    let s = State::new((5, 5), (9, 9));
    assert_eq!(s.tick_millis(), 250);
    let s = state(vec![(5, 5), (5, 6)], Heading::Left, vec![(9, 9)]);
    assert_eq!(s.tick_millis(), 200);
    let s = state(vec![(5, 5), (5, 6), (5, 7), (5, 8)], Heading::Left, vec![(9, 9)]);
    assert_eq!(s.tick_millis(), 142);
}

#[test]
fn wall_is_the_boundary_ring() {
    let w = wall_cells();
    assert_eq!(w.len(), 2 * 42 + 2 * 20);
    assert!(w.contains(&(0, 0)));
    assert!(w.contains(&(21, 41)));
    assert!(!w.contains(&(1, 1)));
    assert!(wall_at((0, 17)));
    assert!(!wall_at((20, 40)));
    assert!(!wall_at((-1, 3)));
}

#[test]
fn frame_draws_layers() {
    let s = state(vec![(5, 5), (5, 6)], Heading::Left, vec![(5, 6), (9, 9)]);
    let f = frame(&s);
    assert_eq!(f.len(), 22);
    assert!(f.iter().all(|row| row.len() == 42));
    assert_eq!(f[0][0], WALL_GLYPH);
    assert_eq!(f[21][3], WALL_GLYPH);
    assert_eq!(f[5][5], SNAKE_GLYPH);
    assert_eq!(f[5][6], APPLE_GLYPH);
    assert_eq!(f[9][9], APPLE_GLYPH);
    assert_eq!(f[2][2], EMPTY_GLYPH);
}

#[test]
fn highscore_counts_up() {
    assert_eq!(highscore_steps(0), vec![]);
    assert_eq!(highscore_steps(1), vec![]);
    assert_eq!(highscore_steps(4), vec![(1, 333), (2, 500), (3, 1000)]);
}

#[test]
fn menu_keys() {
    assert_eq!(menu_action(Some('p')), MenuAction::Play);
    assert_eq!(menu_action(Some('q')), MenuAction::Quit);
    assert_eq!(menu_action(Some('h')), MenuAction::Stay);
    assert_eq!(menu_action(Some('j')), MenuAction::Stay);
    assert_eq!(menu_action(None), MenuAction::Stay);
}

#[test]
fn key_headings() {
    assert_eq!(Key::Up.heading(), Some(Heading::Up));
    assert_eq!(Key::Other.heading(), None);
    assert_eq!(Heading::Left.offset(), (0, -1));
}
