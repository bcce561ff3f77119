//! The game state and its one-tick transition.
use rand::Rng;
use vstd::prelude::*;
use crate::grid::{Cell, Heading, INTERIOR_CELLS, ROWS, COLS, is_interior, next_cell, step_cell};
use crate::grid::lemma_distinct_cells_bound;

verus! {

/// Speed, in ticks per second, of a fresh session.
pub const BASE_SPEED: u32 = 4;

/// A key press as the game sees it.
#[derive(Clone, Copy, Debug, PartialEq, Eq, Structural)]
pub enum Key {
    Up,
    Down,
    Left,
    Right,
    /// Any key that does not steer.
    Other,
}

impl Key {
    /// The heading this key selects, if it is a direction key.
    pub open spec fn spec_heading(self) -> Option<Heading> {
        match self {
            Key::Up => Some(Heading::Up),
            Key::Down => Some(Heading::Down),
            Key::Left => Some(Heading::Left),
            Key::Right => Some(Heading::Right),
            Key::Other => None,
        }
    }

    /// The heading this key selects, if it is a direction key.
    pub fn heading(self) -> (r: Option<Heading>)
        ensures
            r == self.spec_heading(),
    {
        match self {
            Key::Up => Some(Heading::Up),
            Key::Down => Some(Heading::Down),
            Key::Left => Some(Heading::Left),
            Key::Right => Some(Heading::Right),
            Key::Other => None,
        }
    }
}

/// The heading after the pending key (if any) has been applied.
pub open spec fn heading_after(h: Heading, key: Option<Key>) -> Heading {
    match key {
        Some(k) => match k.spec_heading() {
            Some(n) => n,
            None => h,
        },
        None => h,
    }
}

/// The mathematical state of a session.
pub ghost struct StateView {
    /// Snake cells, head first.
    pub snake: Seq<Cell>,
    pub heading: Heading,
    /// Ticks per second.
    pub speed: int,
    pub apples: Set<Cell>,
}

/// Every cell of the sequence lies inside the wall.
pub open spec fn all_interior(s: Seq<Cell>) -> bool {
    forall|i: int| 0 <= i < s.len() ==> is_interior(#[trigger] s[i])
}

impl StateView {
    /// A state the game can be in: a non-empty snake of distinct interior
    /// cells, at least one apple, all inside the wall, and a speed that has
    /// gone up by one for each cell the snake has grown.
    pub open spec fn wf(self) -> bool {
        &&& self.snake.len() >= 1
        &&& self.snake.no_duplicates()
        &&& all_interior(self.snake)
        &&& self.apples.finite()
        &&& !self.apples.is_empty()
        &&& forall|p: Cell| #[trigger] self.apples.contains(p) ==> is_interior(p)
        &&& self.speed == BASE_SPEED + self.snake.len() - 1
    }

    /// The cell the head moves to on a tick with the pending `key`.
    pub open spec fn next_head(self, key: Option<Key>) -> Cell {
        next_cell(self.snake[0], heading_after(self.heading, key))
    }
}

/// One tick: apply the pending key, move the head (wrapping through the
/// wall), and then either end the session on a self-collision, or eat an
/// apple (grow, speed up, put a new apple at `spawn`), or drop the tail.
/// The flag is whether the session goes on. The body check runs before the
/// tail moves, so the cell the tail is about to leave counts as body; and
/// `spawn` is not checked against the snake.
pub open spec fn tick(v: StateView, key: Option<Key>, spawn: Cell) -> (StateView, bool) {
    let h = heading_after(v.heading, key);
    let next = next_cell(v.snake[0], h);
    if v.snake.contains(next) {
        (StateView { snake: v.snake, heading: h, speed: v.speed, apples: v.apples }, false)
    } else if v.apples.contains(next) {
        (
            StateView {
                snake: seq![next] + v.snake,
                heading: h,
                speed: v.speed + 1,
                apples: v.apples.remove(next).insert(spawn),
            },
            true,
        )
    } else {
        (
            StateView {
                snake: seq![next] + v.snake.drop_last(),
                heading: h,
                speed: v.speed,
                apples: v.apples,
            },
            true,
        )
    }
}

/// A game session: the snake, its heading, its speed and the apples.
pub struct State {
    snake: Vec<Cell>,
    heading: Heading,
    speed: u32,
    apples: Vec<Cell>,
}

impl View for State {
    type V = StateView;

    closed spec fn view(&self) -> StateView {
        StateView {
            snake: self.snake@,
            heading: self.heading,
            speed: self.speed as int,
            apples: self.apples@.to_set(),
        }
    }
}

/// Relies on rand::thread_rng and rand::Rng::gen_range (rand 0.7): a value
/// drawn from `[low, high)`; gen_range panics when `low >= high`.
#[verifier::external_body]
fn random_between(low: i32, high: i32) -> (r: i32)
    requires
        low < high,
    ensures
        low <= r < high,
{
    rand::thread_rng().gen_range(low, high)
}

/// A cell drawn at random strictly inside the wall.
pub fn random_interior_cell() -> (r: Cell)
    ensures
        is_interior(r),
{
    let row = random_between(1, ROWS - 1);
    let col = random_between(1, COLS - 1);
    (row, col)
}

/// Index of `p` in `v`, if it is there.
fn position(v: &Vec<Cell>, p: Cell) -> (r: Option<usize>)
    ensures
        match r {
            Some(i) => i < v@.len() && v@[i as int] == p,
            None => !v@.contains(p),
        },
{
    let mut i: usize = 0;
    while i < v.len()
        invariant
            0 <= i <= v@.len(),
            forall|j: int| 0 <= j < i ==> v@[j] != p,
        decreases v@.len() - i,
    {
        if v[i].0 == p.0 && v[i].1 == p.1 {
            return Some(i);
        }
        i = i + 1;
    }
    None
}

/// Whether `v` holds distinct cells, all strictly inside the wall.
fn distinct_interior(v: &Vec<Cell>) -> (r: bool)
    ensures
        r == (v@.no_duplicates() && all_interior(v@)),
{
    let mut i: usize = 0;
    while i < v.len()
        invariant
            0 <= i <= v@.len(),
            forall|a: int, b: int| 0 <= a < i && 0 <= b < v@.len() && a != b ==> v@[a] != v@[b],
            forall|a: int| 0 <= a < i ==> is_interior(#[trigger] v@[a]),
        decreases v@.len() - i,
    {
        let p = v[i];
        if !(1 <= p.0 && p.0 <= ROWS - 2 && 1 <= p.1 && p.1 <= COLS - 2) {
            return false;
        }
        let mut j: usize = 0;
        while j < v.len()
            invariant
                0 <= i < v@.len(),
                0 <= j <= v@.len(),
                p == v@[i as int],
                forall|b: int| 0 <= b < j && b != i ==> v@[b] != p,
            decreases v@.len() - j,
        {
            if j != i && v[j].0 == p.0 && v[j].1 == p.1 {
                return false;
            }
            j = j + 1;
        }
        i = i + 1;
    }
    true
}

proof fn lemma_remove_distinct(s: Seq<Cell>, i: int)
    requires
        s.no_duplicates(),
        0 <= i < s.len(),
    ensures
        s.remove(i).no_duplicates(),
        s.remove(i).to_set() == s.to_set().remove(s[i]),
        all_interior(s) ==> all_interior(s.remove(i)),
{
    let r = s.remove(i);
    s.remove_ensures(i);
    assert forall|x: Cell| r.contains(x) <==> (s.contains(x) && x != s[i]) by {
        if r.contains(x) {
            let k = choose|k: int| 0 <= k < r.len() && r[k] == x;
            if k < i {
                assert(s[k] == x);
            } else {
                assert(s[k + 1] == x);
            }
        }
        if s.contains(x) && x != s[i] {
            let k = choose|k: int| 0 <= k < s.len() && s[k] == x;
            if k < i {
                assert(r[k] == x);
            } else {
                assert(r[k - 1] == x);
            }
        }
    }
    assert(r.to_set() =~= s.to_set().remove(s[i]));
    assert forall|a: int, b: int| 0 <= a < r.len() && 0 <= b < r.len() && a != b implies r[a]
        != r[b] by {
        let a2 = if a < i { a } else { a + 1 };
        let b2 = if b < i { b } else { b + 1 };
        assert(r[a] == s[a2] && r[b] == s[b2]);
    }
    if all_interior(s) {
        assert forall|a: int| 0 <= a < r.len() implies is_interior(#[trigger] r[a]) by {
            let a2 = if a < i { a } else { a + 1 };
            assert(r[a] == s[a2]);
        }
    }
}

proof fn lemma_push_distinct(s: Seq<Cell>, x: Cell)
    requires
        s.no_duplicates(),
        !s.contains(x),
    ensures
        s.push(x).no_duplicates(),
        s.push(x).to_set() == s.to_set().insert(x),
{
    s.lemma_push_to_set_commute(x);
    let r = s.push(x);
    assert forall|a: int, b: int| 0 <= a < r.len() && 0 <= b < r.len() && a != b implies r[a]
        != r[b] by {
        if a < s.len() && b < s.len() {
            assert(r[a] == s[a] && r[b] == s[b]);
        } else if a < s.len() {
            assert(r[a] == s[a]);
        } else {
            assert(r[b] == s[b]);
        }
    }
}

/// Putting a cell that is not in `s` in front keeps the cells distinct and inside.
proof fn lemma_prepend_distinct(s: Seq<Cell>, x: Cell)
    requires
        s.no_duplicates(),
        all_interior(s),
        !s.contains(x),
        is_interior(x),
    ensures
        (seq![x] + s).no_duplicates(),
        all_interior(seq![x] + s),
{
    let r = seq![x] + s;
    assert forall|a: int, b: int| 0 <= a < r.len() && 0 <= b < r.len() && a != b implies r[a]
        != r[b] by {
        if a > 0 && b > 0 {
            assert(r[a] == s[a - 1] && r[b] == s[b - 1]);
        } else if a > 0 {
            assert(r[a] == s[a - 1]);
        } else {
            assert(r[b] == s[b - 1]);
        }
    }
    assert forall|a: int| 0 <= a < r.len() implies is_interior(#[trigger] r[a]) by {
        if a > 0 {
            assert(r[a] == s[a - 1]);
        }
    }
}

impl State {
    /// The library's well-formedness condition on the concrete state.
    pub closed spec fn wf(&self) -> bool {
        &&& self@.wf()
        &&& self.apples@.no_duplicates()
    }

    /// A fresh session: a one-cell snake at `start` heading right, one apple
    /// at `apple`, base speed.
    pub fn new(start: Cell, apple: Cell) -> (r: State)
        requires
            is_interior(start),
            is_interior(apple),
        ensures
            r.wf(),
            r@ == (StateView {
                snake: seq![start],
                heading: Heading::Right,
                speed: BASE_SPEED as int,
                apples: set![apple],
            }),
    {
        let r = State { snake: vec![start], heading: Heading::Right, speed: BASE_SPEED, apples: vec![apple] };
        assert(r.apples@.to_set() =~= set![apple]) by {
            assert(r.apples@[0] == apple);
        }
        assert(r.snake@ =~= seq![start]);
        r
    }

    /// A fresh session with the snake and the apple at random interior cells.
    pub fn init() -> (r: State)
        ensures
            r.wf(),
            exists|start: Cell, apple: Cell|
                is_interior(start) && is_interior(apple) && r@ == (StateView {
                    snake: seq![start],
                    heading: Heading::Right,
                    speed: BASE_SPEED as int,
                    apples: set![apple],
                }),
    {
        let start = random_interior_cell();
        let apple = random_interior_cell();
        State::new(start, apple)
    }
    /// Applies a key press: a direction key sets the heading, any other key
    /// leaves it as it is.
    pub fn input(&mut self, key: Key)
        requires
            old(self).wf(),
        ensures
            final(self).wf(),
            final(self)@ == (StateView {
                heading: heading_after(old(self)@.heading, Some(key)),
                ..old(self)@
            }),
    {
        match key.heading() {
            Some(h) => {
                self.heading = h;
            },
            None => {},
        }
    }

    /// One tick with the pending `key`, where `spawn` is where a new apple
    /// goes if one is eaten. Returns whether the session goes on.
    pub fn advance(&mut self, key: Option<Key>, spawn: Cell) -> (alive: bool)
        requires
            old(self).wf(),
            is_interior(spawn),
        ensures
            final(self).wf(),
            (final(self)@, alive) == tick(old(self)@, key, spawn),
    {
        match key {
            Some(k) => self.input(k),
            None => {},
        }
        let ghost snake0 = self.snake@;
        let next = step_cell(self.snake[0], self.heading);
        if position(&self.snake, next).is_some() {
            return false;
        }
        proof {
            lemma_prepend_distinct(snake0, next);
        }
        match position(&self.apples, next) {
            Some(i) => {
                let ghost apples0 = self.apples@;
                self.apples.remove(i);
                proof {
                    lemma_remove_distinct(apples0, i as int);
                }
                if position(&self.apples, spawn).is_none() {
                    let ghost apples1 = self.apples@;
                    self.apples.push(spawn);
                    proof {
                        lemma_push_distinct(apples1, spawn);
                    }
                } else {
                    assert(self.apples@.to_set() =~= self.apples@.to_set().insert(spawn));
                }
                proof {
                    lemma_distinct_cells_bound(seq![next] + snake0);
                }
                self.speed = self.speed + 1;
                self.snake.insert(0, next);
                assert(self.snake@ =~= seq![next] + snake0);
            },
            None => {
                self.snake.pop();
                let ghost shorter = self.snake@;
                assert(shorter =~= snake0.drop_last());
                assert forall|a: int| 0 <= a < shorter.len() implies is_interior(#[trigger] shorter[a]) by {
                    assert(shorter[a] == snake0[a]);
                }
                assert(shorter.no_duplicates()) by {
                    assert forall|a: int, b: int| 0 <= a < shorter.len() && 0 <= b < shorter.len() && a != b implies shorter[a] != shorter[b] by {
                        assert(shorter[a] == snake0[a] && shorter[b] == snake0[b]);
                    }
                }
                assert(!shorter.contains(next)) by {
                    if shorter.contains(next) {
                        let k = choose|k: int| 0 <= k < shorter.len() && shorter[k] == next;
                        assert(snake0[k] == next);
                    }
                }
                proof {
                    lemma_prepend_distinct(shorter, next);
                }
                self.snake.insert(0, next);
                assert(self.snake@ =~= seq![next] + shorter);
            },
        }
        true
    }

    /// One tick with the pending `key`; a new apple, if one is eaten, goes to
    /// a random interior cell. Returns whether the session goes on.
    pub fn update(&mut self, key: Option<Key>) -> (alive: bool)
        requires
            old(self).wf(),
        ensures
            final(self).wf(),
            exists|spawn: Cell|
                is_interior(spawn) && (final(self)@, alive) == tick(old(self)@, key, spawn),
    {
        let spawn = random_interior_cell();
        self.advance(key, spawn)
    }
    /// A session from given parts, or `None` when they do not make a valid
    /// state: the snake (head first) and the apples must each be non-empty,
    /// distinct and strictly inside the wall. The speed is the base speed plus
    /// one for each snake cell beyond the first.
    pub fn from_parts(snake: Vec<Cell>, heading: Heading, apples: Vec<Cell>) -> (r: Option<State>)
        ensures
            r.is_some() <==> (snake@.len() >= 1 && snake@.no_duplicates() && all_interior(snake@)
                && apples@.len() >= 1 && apples@.no_duplicates() && all_interior(apples@)),
            match r {
                Some(st) => st.wf() && st@ == (StateView {
                    snake: snake@,
                    heading: heading,
                    speed: BASE_SPEED + snake@.len() - 1,
                    apples: apples@.to_set(),
                }),
                None => true,
            },
    {
        if snake.len() == 0 || apples.len() == 0 {
            return None;
        }
        if !distinct_interior(&snake) || !distinct_interior(&apples) {
            return None;
        }
        proof {
            lemma_distinct_cells_bound(snake@);
        }
        let speed = BASE_SPEED + (snake.len() - 1) as u32;
        let st = State { snake, heading, speed, apples };
        proof {
            vstd::seq_lib::seq_to_set_is_finite(st.apples@);
            assert forall|p: Cell| #[trigger] st@.apples.contains(p) implies is_interior(p) by {
                let k = choose|k: int| 0 <= k < st.apples@.len() && st.apples@[k] == p;
            }
            assert(st@.apples.contains(st.apples@[0]));
            assert(!Set::<Cell>::empty().contains(st.apples@[0]));
        }
        Some(st)
    }

    /// The snake's cells, head first.
    pub fn snake(&self) -> (r: &Vec<Cell>)
        ensures
            r@ == self@.snake,
    {
        &self.snake
    }

    /// The current heading.
    pub fn heading(&self) -> (r: Heading)
        ensures
            r == self@.heading,
    {
        self.heading
    }

    /// The current speed, in ticks per second.
    pub fn speed(&self) -> (r: u32)
        ensures
            r == self@.speed,
    {
        self.speed
    }

    /// The apple cells, each once.
    pub fn apples(&self) -> (r: &Vec<Cell>)
        requires
            self.wf(),
        ensures
            r@.to_set() == self@.apples,
            r@.no_duplicates(),
    {
        &self.apples
    }

    /// The score: the snake's length.
    pub fn score(&self) -> (r: usize)
        ensures
            r == self@.snake.len(),
    {
        self.snake.len()
    }

    /// How long to wait before the next tick, in milliseconds.
    pub fn tick_millis(&self) -> (r: u64)
        requires
            self.wf(),
        ensures
            r == 1000int / self@.speed,
    {
        1000 / (self.speed as u64)
    }
}

/// On a tick that keeps the heading and finds neither an apple nor the body
/// at the next cell, the snake keeps its length and moves by one cell: the
/// new head is the next cell and every other cell is where the cell before it
/// was. Apples and speed stay as they are.
pub proof fn lemma_tick_moves(v: StateView, key: Option<Key>, spawn: Cell)
    requires
        v.wf(),
        heading_after(v.heading, key) == v.heading,
        !v.apples.contains(v.next_head(key)),
        !v.snake.contains(v.next_head(key)),
    ensures
        ({
            let (w, alive) = tick(v, key, spawn);
            &&& alive
            &&& w.snake.len() == v.snake.len()
            &&& w.snake[0] == next_cell(v.snake[0], v.heading)
            &&& w.snake.subrange(1, w.snake.len() as int) == v.snake.subrange(0, v.snake.len() - 1)
            &&& w.heading == v.heading
            &&& w.apples == v.apples
            &&& w.speed == v.speed
        }),
{
    let w = tick(v, key, spawn).0;
    assert(w.snake.subrange(1, w.snake.len() as int) =~= v.snake.subrange(0, v.snake.len() - 1));
}

/// On a tick whose next cell holds an apple (and not the body), the snake
/// grows by one cell, the speed goes up by one, and the eaten apple is
/// replaced by one at `spawn`; when `spawn` differs from the eaten cell that
/// cell holds no apple any more.
pub proof fn lemma_tick_eats(v: StateView, key: Option<Key>, spawn: Cell)
    requires
        v.wf(),
        v.apples.contains(v.next_head(key)),
        !v.snake.contains(v.next_head(key)),
    ensures
        ({
            let (w, alive) = tick(v, key, spawn);
            &&& alive
            &&& w.snake.len() == v.snake.len() + 1
            &&& w.snake[0] == v.next_head(key)
            &&& w.speed == v.speed + 1
            &&& w.apples.contains(spawn)
            &&& spawn != v.next_head(key) ==> !w.apples.contains(v.next_head(key))
        }),
{
}

/// On a tick whose next cell is a cell of the snake, the session ends and
/// the snake, the apples and the speed stay as they were.
pub proof fn lemma_tick_collides(v: StateView, key: Option<Key>, spawn: Cell)
    requires
        v.wf(),
        v.snake.contains(v.next_head(key)),
    ensures
        ({
            let (w, alive) = tick(v, key, spawn);
            &&& !alive
            &&& w.snake == v.snake
            &&& w.apples == v.apples
            &&& w.speed == v.speed
        }),
{
}

} // verus!
