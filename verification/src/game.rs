use vstd::prelude::*;
use std::collections::VecDeque;
use crate::direction::Direction;
use crate::field::Block;
use crate::field::Field;
use crate::field::count_in_grid;
use crate::field::food_placed_at;
use crate::field::lemma_count_grid_full;
use crate::field::lemma_count_grid_update;
use crate::field::lemma_count_grid_zero;
use crate::input::Intent;
use crate::position::Position;

verus! {

/// Whether a session is still running or has ended in a loss.
#[derive(Clone, Copy, PartialEq, Eq, Structural, Debug)]
pub enum State {
    Playing,
    Lost,
}

/// The inter-tick budget a fresh session starts with, in microseconds.
pub const INITIAL_CYCLE_MICROS: u64 = 300000;

/// The floor under the tick interval, so the speed-up cannot shrink the tick
/// below the platform's useful polling resolution.
pub const MIN_CYCLE_MICROS: u64 = 30000;

/// Numerator of the decay applied to the tick interval after each tick.
pub const CYCLE_DECAY_NUM: u64 = 9997;

/// Denominator of the decay applied to the tick interval after each tick.
pub const CYCLE_DECAY_DEN: u64 = 10000;

/// One game session: the field, the snake's chain of coordinates (front =
/// head, back = tail), the committed heading, the pause flag, and the
/// adaptive inter-tick budget.
pub struct Game {
    pub snake: VecDeque<Position>,
    pub direction: Direction,
    pub field: Field,
    pub paused: bool,
    pub cycle_micros: u64,
}

impl Game {
    /// The snake's chain of coordinates, head first.
    pub open spec fn body(self) -> Seq<Position> {
        self.snake@
    }

    pub open spec fn head(self) -> Position {
        self.snake@[0]
    }

    pub open spec fn tail(self) -> Position {
        self.snake@[self.snake@.len() - 1]
    }

    /// The cell the head would move into on the next tick.
    pub open spec fn next_head(self) -> Position {
        self.head().step_spec(self.direction)
    }

    /// The session invariant: the field is a well-formed rectangle, the snake
    /// is a chain of at least two distinct in-bounds cells, the field's cell
    /// markers and the chain agree exactly (the head cell carries a `Head`
    /// marker, every later chain cell a `Snake` marker, and no others), no
    /// `Wall` is ever stored, exactly one `Food` cell exists, and the tick
    /// budget stays within its designed band.
    pub open spec fn wf(self) -> bool {
        &&& self.field.wf()
        &&& self.snake@.len() >= 2
        &&& forall|i: int|
            0 <= i < self.snake@.len() ==> self.field.in_bounds(#[trigger] self.snake@[i])
        &&& forall|i: int, j: int|
            0 <= i < j < self.snake@.len() ==> self.snake@[i] != self.snake@[j]
        &&& forall|p: Position|
            self.field.in_bounds(p) ==> ((#[trigger] self.field.cell(p)) is Head <==> p
                == self.snake@[0])
        &&& forall|p: Position|
            self.field.in_bounds(p) ==> (#[trigger] self.field.cell(p) == Block::Snake
                <==> exists|i: int| 1 <= i < self.snake@.len() && self.snake@[i] == p)
        &&& forall|p: Position|
            self.field.in_bounds(p) ==> #[trigger] self.field.cell(p) != Block::Wall
        &&& self.field.count(Block::Food) == 1
        &&& MIN_CYCLE_MICROS <= self.cycle_micros <= INITIAL_CYCLE_MICROS
    }

    /// Build a session from an explicit layout: a two-cell snake given as its
    /// head and tail cells, a committed heading, and the food cell.
    pub fn with_layout(
        width: usize,
        height: usize,
        head: Position,
        tail: Position,
        direction: Direction,
        food: Position,
    ) -> (g: Game)
        requires
            1 <= width <= u16::MAX as usize,
            1 <= height <= u16::MAX as usize,
            0 <= head.x < width && 0 <= head.y < height,
            0 <= tail.x < width && 0 <= tail.y < height,
            0 <= food.x < width && 0 <= food.y < height,
            head != tail,
            food != head,
            food != tail,
        ensures
            g.wf(),
            g.field.width == width,
            g.field.height == height,
            g.snake@ == seq![head, tail],
            g.direction == direction,
            g.paused == false,
            g.cycle_micros == INITIAL_CYCLE_MICROS,
            g.field.cell(head) == Block::Head(direction),
            g.field.cell(tail) == Block::Snake,
            g.field.cell(food) == Block::Food,
            forall|q: Position|
                g.field.in_bounds(q) && q != head && q != tail && q != food
                    ==> g.field.cell(q) == Block::Empty,
            g.field.count(Block::Empty) + 3 == width * height,
    {
        let mut field = Field::new(width, height);
        field.set_position(&head, Block::Head(direction));
        field.set_position(&tail, Block::Snake);
        field.set_position(&food, Block::Food);
        let mut snake: VecDeque<Position> = VecDeque::new();
        snake.push_back(head);
        snake.push_back(tail);
        let g = Game { snake, direction, field, paused: false, cycle_micros: INITIAL_CYCLE_MICROS };
        proof {
            assert(g.snake@ =~= seq![head, tail]);
            lemma_session_counts(g, head, tail, food);
        }
        g
    }

    /// Start a session on a fresh width x height field: a two-cell snake in
    /// the middle of the field facing right, food on a random `Empty` cell,
    /// and the initial tick budget. The field must have room for the snake
    /// and at least one further cell for the food.
    pub fn new(width: usize, height: usize) -> (g: Game)
        requires
            2 <= width <= u16::MAX as usize,
            1 <= height <= u16::MAX as usize,
            width * height >= 3,
        ensures
            g.wf(),
            g.field.width == width,
            g.field.height == height,
            g.snake@ =~= seq![
                (Position { x: (width / 2) as isize, y: (height / 2) as isize }),
                (Position { x: (width / 2 - 1) as isize, y: (height / 2) as isize }),
            ],
            g.direction == Direction::Right,
            g.paused == false,
            g.cycle_micros == INITIAL_CYCLE_MICROS,
            g.field.count(Block::Empty) + 3 == width * height,
    {
        let head = Position { x: (width / 2) as isize, y: (height / 2) as isize };
        let tail = Position { x: (width / 2 - 1) as isize, y: (height / 2) as isize };
        let mut field = Field::new(width, height);
        let ghost f0 = field;
        field.set_position(&head, Block::Head(Direction::Right));
        field.set_position(&tail, Block::Snake);
        let ghost mid = field;
        proof {
            let r0 = f0.grid();
            assert forall|y: int, x: int|
                0 <= y < r0.len() && 0 <= x < r0[y].len() implies r0[y][x] == Block::Empty by {
                let q = Position { x: x as isize, y: y as isize };
                assert(f0.in_bounds(q));
                assert(r0[y][x] == f0.cell(q));
            }
            lemma_count_grid_full(r0, width as nat, Block::Empty);
            let r1 = r0.update(
                head.y as int,
                r0[head.y as int].update(head.x as int, Block::Head(Direction::Right)),
            );
            let r2 = r1.update(
                tail.y as int,
                r1[tail.y as int].update(tail.x as int, Block::Snake),
            );
            assert(mid.grid() == r2);
            assert(r1[tail.y as int][tail.x as int] == Block::Empty);
            lemma_count_grid_update(
                r0,
                head.y as int,
                head.x as int,
                Block::Head(Direction::Right),
                Block::Empty,
            );
            lemma_count_grid_update(r1, tail.y as int, tail.x as int, Block::Snake, Block::Empty);
            assert(count_in_grid(r0, Block::Empty) == r0.len() * (width as nat));
            assert(r0.len() == height);
            assert((height as int) * (width as int) == (width as int) * (height as int))
                by (nonlinear_arith);
            assert(r0[head.y as int][head.x as int] == Block::Empty);
            assert(count_in_grid(r1, Block::Empty) + 1 == count_in_grid(r0, Block::Empty));
            assert(count_in_grid(r2, Block::Empty) + 1 == count_in_grid(r1, Block::Empty));
            assert(mid.count(Block::Empty) + 2 == width * height);
        }
        field.place_food();
        let mut snake: VecDeque<Position> = VecDeque::new();
        snake.push_back(head);
        snake.push_back(tail);
        let g = Game {
            snake,
            direction: Direction::Right,
            field,
            paused: false,
            cycle_micros: INITIAL_CYCLE_MICROS,
        };
        proof {
            assert(g.snake@ =~= seq![head, tail]);
            let fp = choose|f: Position| food_placed_at(mid, g.field, f);
            assert(food_placed_at(mid, g.field, fp));
            assert(mid.cell(head) == Block::Head(Direction::Right));
            assert(mid.cell(tail) == Block::Snake);
            assert(fp != head && fp != tail);
            assert(g.field.cell(head) == Block::Head(Direction::Right));
            assert(g.field.cell(tail) == Block::Snake);
            assert(g.field.cell(fp) == Block::Food);
            assert forall|q: Position|
                g.field.in_bounds(q) && q != head && q != tail && q != fp implies g.field.cell(q)
                == Block::Empty by {
                assert(g.field.cell(q) == mid.cell(q));
                assert(mid.cell(q) == f0.cell(q));
            }
            lemma_session_counts(g, head, tail, fp);
        }
        g
    }

    /// The session's score: how many segments the snake has grown beyond the
    /// two it started with.
    pub fn score(&self) -> (n: usize)
        requires
            self.wf(),
        ensures
            n + 2 == self.snake@.len(),
    {
        self.snake.len() - 2
    }

    /// The session with only its pause flag flipped.
    pub open spec fn with_pause_toggled(self) -> Game {
        Game { paused: !self.paused, ..self }
    }

    /// Shrink the inter-tick budget by the fixed decay, never below its
    /// floor, so the game speeds up gradually but not without bound.
    pub fn speed_up(&mut self)
        requires
            MIN_CYCLE_MICROS <= old(self).cycle_micros <= INITIAL_CYCLE_MICROS,
        ensures
            *final(self) == (Game {
                cycle_micros: decayed_cycle(old(self).cycle_micros),
                ..*old(self)
            }),
            MIN_CYCLE_MICROS <= final(self).cycle_micros <= old(self).cycle_micros,
    {
        proof {
            let x = old(self).cycle_micros as int;
            assert(0 <= x * (CYCLE_DECAY_NUM as int) / (CYCLE_DECAY_DEN as int) <= x)
                by (nonlinear_arith)
                requires 0 <= x;
        }
        let c = self.cycle_micros * CYCLE_DECAY_NUM / CYCLE_DECAY_DEN;
        self.cycle_micros = if c < MIN_CYCLE_MICROS {
            MIN_CYCLE_MICROS
        } else {
            c
        };
    }

    /// Advance the simulation one tick along the committed heading, resolving
    /// the cell ahead: `Empty` moves the snake, `Food` grows it and places
    /// fresh food, and any other marker loses the game with the session left
    /// untouched. A field with no `Empty` cell left (the snake would have
    /// covered nearly the whole grid) is outside this game's reachable states
    /// and is excluded by precondition.
    #[verifier::rlimit(100)]
    pub fn update(&mut self) -> (s: State)
        requires
            old(self).wf(),
            old(self).field.count(Block::Empty) > 0,
        ensures
            final(self).wf(),
            old(self).field.marker_at(old(self).next_head()) == Block::Empty ==> s
                == State::Playing && stepped_into_empty(*old(self), *final(self)),
            old(self).field.marker_at(old(self).next_head()) == Block::Food ==> s
                == State::Playing && grew_on_food(*old(self), *final(self)),
            old(self).field.marker_at(old(self).next_head()) != Block::Empty && old(self).field.marker_at(
                old(self).next_head(),
            ) != Block::Food ==> s == State::Lost && *final(self) == *old(self),
    {
        let head = self.snake[0];
        let new_head = head.step(&self.direction);
        let marker = self.field.get_position(&new_head);
        match marker {
            Block::Empty => {
                let ghost pre = *old(self);
                let ghost nh = pre.next_head();
                let ghost n = pre.snake@.len() as int;
                let tail = self.snake[self.snake.len() - 1];
                proof {
                    lemma_free_cell_off_snake(pre, new_head);
                    assert(pre.snake@[0] != pre.snake@[n - 1]);
                }
                self.snake.push_front(new_head);
                let direction = self.direction;
                self.field.set_position(&new_head, Block::Head(direction));
                self.field.set_position(&head, Block::Snake);
                self.field.set_position(&tail, Block::Empty);
                let _ = self.snake.pop_back();
                proof {
                    let nb = self.snake@;
                    let hd = pre.snake@[0];
                    let tl = pre.snake@[n - 1];
                    let post = *self;
                    assert(pre.field.in_bounds(nh));
                    assert(nb =~= seq![nh] + pre.snake@.drop_last());
                    assert(post.field.cell(nh) == Block::Head(pre.direction));
                    assert(post.field.cell(hd) == Block::Snake);
                    assert(post.field.cell(tl) == Block::Empty);
                    assert forall|i: int| 0 <= i < nb.len() implies pre.field.in_bounds(
                        #[trigger] nb[i],
                    ) by {
                        if i > 0 {
                            assert(nb[i] == pre.snake@[i - 1]);
                        }
                    }
                    assert forall|i: int, j: int| 0 <= i < j < nb.len() implies nb[i] != nb[j] by {
                        if i == 0 {
                            assert(nb[j] == pre.snake@[j - 1]);
                        } else {
                            assert(nb[i] == pre.snake@[i - 1]);
                            assert(nb[j] == pre.snake@[j - 1]);
                        }
                    }
                    assert forall|p: Position| post.field.in_bounds(p) implies ((
                    post.field.cell(p) is Head) <==> p == nb[0]) by {
                        if p != nh && p != hd && p != tl {
                            assert(post.field.cell(p) == pre.field.cell(p));
                            assert((pre.field.cell(p) is Head) <==> p == pre.snake@[0]);
                        }
                    }
                    assert forall|p: Position| post.field.in_bounds(p) implies (post.field.cell(p)
                        == Block::Snake <==> exists|i: int| 1 <= i < nb.len() && nb[i] == p) by {
                        if p == nh {
                            if exists|i: int| 1 <= i < nb.len() && nb[i] == p {
                                let i = choose|i: int| 1 <= i < nb.len() && nb[i] == p;
                                assert(pre.snake@[i - 1] == p);
                            }
                        } else if p == hd {
                            assert(nb[1] == pre.snake@[0]);
                        } else if p == tl {
                            assert(post.field.cell(p) == Block::Empty);
                            if exists|i: int| 1 <= i < nb.len() && nb[i] == p {
                                let i = choose|i: int| 1 <= i < nb.len() && nb[i] == p;
                                assert(pre.snake@[i - 1] == p);
                                assert(pre.snake@[n - 1] == p);
                                assert(i - 1 < n - 1);
                            }
                        } else {
                            assert(post.field.cell(p) == pre.field.cell(p));
                            if pre.field.cell(p) == Block::Snake {
                                let j = choose|j: int|
                                    1 <= j < pre.snake@.len() && pre.snake@[j] == p;
                                assert(j != n - 1);
                                assert(nb[j + 1] == p);
                                assert(1 <= j + 1 < nb.len());
                            }
                            if exists|i: int| 1 <= i < nb.len() && nb[i] == p {
                                let i = choose|i: int| 1 <= i < nb.len() && nb[i] == p;
                                assert(pre.snake@[i - 1] == p);
                                assert(i - 1 >= 1);
                                assert(pre.field.cell(p) == Block::Snake);
                            }
                        }
                    }
                    assert forall|p: Position| post.field.in_bounds(p) implies post.field.cell(p)
                        != Block::Wall by {
                        if p != nh && p != hd && p != tl {
                            assert(post.field.cell(p) == pre.field.cell(p));
                        }
                    }
                    let r0 = pre.field.grid();
                    let r1 = r0.update(
                        nh.y as int,
                        r0[nh.y as int].update(nh.x as int, Block::Head(pre.direction)),
                    );
                    let r2 = r1.update(
                        hd.y as int,
                        r1[hd.y as int].update(hd.x as int, Block::Snake),
                    );
                    let r3 = r2.update(
                        tl.y as int,
                        r2[tl.y as int].update(tl.x as int, Block::Empty),
                    );
                    assert(post.field.grid() == r3);
                    assert(r0[nh.y as int][nh.x as int] == Block::Empty);
                    assert(pre.field.cell(hd) is Head);
                    assert(r1[hd.y as int][hd.x as int] == pre.field.cell(hd));
                    assert(pre.snake@[n - 1] == tl && 1 <= n - 1 < n);
                    assert(pre.field.cell(tl) == Block::Snake);
                    assert(r2[tl.y as int][tl.x as int] == pre.field.cell(tl));
                    lemma_count_grid_update(
                        r0,
                        nh.y as int,
                        nh.x as int,
                        Block::Head(pre.direction),
                        Block::Food,
                    );
                    lemma_count_grid_update(
                        r0,
                        nh.y as int,
                        nh.x as int,
                        Block::Head(pre.direction),
                        Block::Empty,
                    );
                    lemma_count_grid_update(r1, hd.y as int, hd.x as int, Block::Snake, Block::Food);
                    lemma_count_grid_update(
                        r1,
                        hd.y as int,
                        hd.x as int,
                        Block::Snake,
                        Block::Empty,
                    );
                    lemma_count_grid_update(r2, tl.y as int, tl.x as int, Block::Empty, Block::Food);
                    lemma_count_grid_update(
                        r2,
                        tl.y as int,
                        tl.x as int,
                        Block::Empty,
                        Block::Empty,
                    );
                    assert(post.field.count(Block::Food) == 1);
                    assert(post.field.count(Block::Empty) == pre.field.count(Block::Empty));
                }
                State::Playing
            },
            Block::Food => {
                let ghost pre = *old(self);
                proof {
                    lemma_free_cell_off_snake(pre, new_head);
                }
                self.snake.push_front(new_head);
                let direction = self.direction;
                self.field.set_position(&new_head, Block::Head(direction));
                self.field.set_position(&head, Block::Snake);
                let ghost mid = self.field;
                proof {
                    let nh = pre.next_head();
                    let hd = pre.snake@[0];
                    assert(pre.field.in_bounds(nh));
                    let r0 = pre.field.grid();
                    let r1 = r0.update(
                        nh.y as int,
                        r0[nh.y as int].update(nh.x as int, Block::Head(pre.direction)),
                    );
                    let r2 = r1.update(
                        hd.y as int,
                        r1[hd.y as int].update(hd.x as int, Block::Snake),
                    );
                    assert(mid.grid() == r2);
                    assert(r0[nh.y as int][nh.x as int] == Block::Food);
                    assert(pre.field.cell(hd) is Head);
                    assert(r1[hd.y as int][hd.x as int] == pre.field.cell(hd));
                    lemma_count_grid_update(
                        r0,
                        nh.y as int,
                        nh.x as int,
                        Block::Head(pre.direction),
                        Block::Food,
                    );
                    lemma_count_grid_update(
                        r0,
                        nh.y as int,
                        nh.x as int,
                        Block::Head(pre.direction),
                        Block::Empty,
                    );
                    lemma_count_grid_update(r1, hd.y as int, hd.x as int, Block::Snake, Block::Food);
                    lemma_count_grid_update(
                        r1,
                        hd.y as int,
                        hd.x as int,
                        Block::Snake,
                        Block::Empty,
                    );
                    assert(mid.count(Block::Empty) == pre.field.count(Block::Empty));
                    assert(mid.count(Block::Food) == 0);
                }
                self.field.place_food();
                proof {
                    let nh = pre.next_head();
                    let hd = pre.snake@[0];
                    let nb = self.snake@;
                    let post = *self;
                    let f = choose|f: Position| food_placed_at(mid, post.field, f);
                    assert(food_placed_at(mid, post.field, f));
                    assert(mid.cell(nh) == Block::Head(pre.direction));
                    assert(mid.cell(hd) == Block::Snake);
                    assert forall|q: Position|
                        pre.field.in_bounds(q) && q != nh && q != hd implies mid.cell(q)
                        == pre.field.cell(q) by {}
                    assert(f != nh && f != hd);
                    assert(pre.field.cell(f) == Block::Empty);
                    assert(post.field.cell(nh) == Block::Head(pre.direction));
                    assert(post.field.cell(hd) == Block::Snake);
                    assert forall|q: Position|
                        pre.field.in_bounds(q) && q != nh && q != hd && q != f implies
                        post.field.cell(q) == pre.field.cell(q) by {
                        assert(post.field.cell(q) == mid.cell(q));
                    }
                    assert(food_relocated(pre, post, f));
                    assert(nb == seq![nh] + pre.snake@);
                    assert forall|i: int| 0 <= i < nb.len() implies pre.field.in_bounds(
                        #[trigger] nb[i],
                    ) by {
                        if i > 0 {
                            assert(nb[i] == pre.snake@[i - 1]);
                        }
                    }
                    assert forall|i: int, j: int| 0 <= i < j < nb.len() implies nb[i] != nb[j] by {
                        if i == 0 {
                            assert(nb[j] == pre.snake@[j - 1]);
                        } else {
                            assert(nb[i] == pre.snake@[i - 1]);
                            assert(nb[j] == pre.snake@[j - 1]);
                        }
                    }
                    assert forall|p: Position| post.field.in_bounds(p) implies ((
                    post.field.cell(p) is Head) <==> p == nb[0]) by {
                        if p == nh {
                        } else if p == hd {
                            assert(post.field.cell(p) == Block::Snake);
                        } else if p == f {
                            assert(post.field.cell(p) == Block::Food);
                        } else {
                            assert(post.field.cell(p) == pre.field.cell(p));
                            assert((pre.field.cell(p) is Head) <==> p == pre.snake@[0]);
                        }
                    }
                    assert forall|p: Position| post.field.in_bounds(p) implies (post.field.cell(p)
                        == Block::Snake <==> exists|i: int| 1 <= i < nb.len() && nb[i] == p) by {
                        if p == nh {
                            if exists|i: int| 1 <= i < nb.len() && nb[i] == p {
                                let i = choose|i: int| 1 <= i < nb.len() && nb[i] == p;
                                assert(pre.snake@[i - 1] == p);
                            }
                        } else if p == hd {
                            assert(nb[1] == pre.snake@[0]);
                        } else if p == f {
                            assert(post.field.cell(p) == Block::Food);
                            if exists|i: int| 1 <= i < nb.len() && nb[i] == p {
                                let i = choose|i: int| 1 <= i < nb.len() && nb[i] == p;
                                assert(pre.snake@[i - 1] == p);
                                assert(i - 1 >= 1);
                                assert(pre.field.cell(p) == Block::Snake);
                            }
                        } else {
                            assert(post.field.cell(p) == pre.field.cell(p));
                            if pre.field.cell(p) == Block::Snake {
                                let j = choose|j: int|
                                    1 <= j < pre.snake@.len() && pre.snake@[j] == p;
                                assert(nb[j + 1] == p);
                                assert(1 <= j + 1 < nb.len());
                            }
                            if exists|i: int| 1 <= i < nb.len() && nb[i] == p {
                                let i = choose|i: int| 1 <= i < nb.len() && nb[i] == p;
                                assert(pre.snake@[i - 1] == p);
                                assert(i - 1 >= 1);
                                assert(pre.field.cell(p) == Block::Snake);
                            }
                        }
                    }
                    assert forall|p: Position| post.field.in_bounds(p) implies post.field.cell(p)
                        != Block::Wall by {
                        if p != nh && p != hd && p != f {
                            assert(post.field.cell(p) == pre.field.cell(p));
                        }
                    }
                    assert(post.field.count(Block::Food) == 1);
                    assert(post.field.count(Block::Empty) + 1 == pre.field.count(Block::Empty));
                    assert(grew_on_food(pre, post));
                }
                State::Playing
            },
            _ => State::Lost,
        }
    }

    /// Carry out one polled intent, as the game loop does each iteration: a
    /// pause toggle flips only the pause flag; while paused no other intent
    /// does anything; a quit intent is the caller's to act on and leaves the
    /// session unchanged; a steering intent or a poll timeout runs one
    /// simulation tick, speeding the cadence up when the tick is survived.
    #[verifier::rlimit(100)]
    pub fn handle_intent(&mut self, intent: Intent) -> (s: State)
        requires
            old(self).wf(),
            old(self).field.count(Block::Empty) > 0,
        ensures
            final(self).wf(),
            intent == Intent::TogglePause ==> s == State::Playing && *final(self) == old(self).with_pause_toggled(),
            old(self).paused && intent != Intent::TogglePause ==> s == State::Playing
                && *final(self) == *old(self),
            !old(self).paused && intent == Intent::Quit ==> s == State::Playing && *final(self)
                == *old(self),
            !old(self).paused && (intent == Intent::Wait || intent is Steer) ==> ticked(
                *old(self),
                *final(self),
                intent,
                s,
            ),
    {
        if let Intent::TogglePause = intent {
            self.paused = !self.paused;
            return State::Playing;
        }
        if self.paused {
            return State::Playing;
        }
        if let Intent::Quit = intent {
            return State::Playing;
        }
        if let Intent::Steer(r) = intent {
            self.direction.set(&r);
        }
        let ghost steered = *self;
        let s = self.update();
        let ghost mid = *self;
        if let State::Playing = s {
            self.speed_up();
        }
        proof {
            assert(steered == (Game {
                direction: intent_direction(*old(self), intent),
                ..*old(self)
            }));
            assert(self.field == mid.field);
            assert(self.snake == mid.snake);
            assert(mid.wf());
            assert(MIN_CYCLE_MICROS <= self.cycle_micros <= INITIAL_CYCLE_MICROS);
            assert(self.wf());
        }
        s
    }
}

/// Pausing and then pressing the pause key again returns the session to
/// exactly the state it had before the pause: field, snake, heading and tick
/// budget included.
pub proof fn lemma_pause_roundtrip(g: Game)
    ensures
        g.with_pause_toggled().with_pause_toggled() == g,
{
}

/// Over any run of consecutive ticks none of which consumes food (each tick
/// lands on an `Empty` cell), the body length and the field's `Empty` cell
/// count both end unchanged: cells vacated balance cells occupied.
pub proof fn lemma_growth_conservation(run: Seq<Game>)
    requires
        run.len() >= 1,
        forall|k: int| 0 <= k < run.len() ==> (#[trigger] run[k]).snake@.len() >= 1,
        forall|k: int|
            0 <= k < run.len() - 1 ==> stepped_into_empty(#[trigger] run[k], run[k + 1]),
    ensures
        run.last().snake@.len() == run[0].snake@.len(),
        run.last().field.count(Block::Empty) == run[0].field.count(Block::Empty),
    decreases run.len(),
{
    if run.len() > 1 {
        let sub = run.drop_last();
        assert forall|k: int|
            0 <= k < sub.len() - 1 implies stepped_into_empty(#[trigger] sub[k], sub[k + 1]) by {
            assert(sub[k] == run[k] && sub[k + 1] == run[k + 1]);
        }
        lemma_growth_conservation(sub);
        assert(stepped_into_empty(run[run.len() - 2], run[run.len() - 1]));
        assert(run.last().snake@.len() == run[run.len() - 2].snake@.len());
    }
}

/// A head step that re-enters any cell the snake occupies reads a `Snake` or
/// `Head` marker, never `Empty` or `Food`, so `update` reports such a tick
/// as a loss and leaves the session untouched.
pub proof fn lemma_self_collision(g: Game)
    requires
        g.wf(),
        g.field.in_bounds(g.next_head()),
        exists|i: int| 0 <= i < g.snake@.len() && g.snake@[i] == g.next_head(),
    ensures
        g.field.marker_at(g.next_head()) == Block::Snake || g.field.marker_at(
            g.next_head(),
        ) is Head,
        g.field.marker_at(g.next_head()) != Block::Empty,
        g.field.marker_at(g.next_head()) != Block::Food,
{
    let nh = g.next_head();
    let i = choose|i: int| 0 <= i < g.snake@.len() && g.snake@[i] == nh;
    if i == 0 {
        assert(g.field.cell(nh) is Head);
    } else {
        assert(exists|j: int| 1 <= j < g.snake@.len() && g.snake@[j] == nh);
        assert(g.field.cell(nh) == Block::Snake);
    }
}

/// The inter-tick budget after one application of the decay, clamped to the
/// floor.
pub open spec fn decayed_cycle(c: u64) -> u64 {
    let d = (c as int) * (CYCLE_DECAY_NUM as int) / (CYCLE_DECAY_DEN as int);
    if d < MIN_CYCLE_MICROS {
        MIN_CYCLE_MICROS
    } else {
        d as u64
    }
}

/// The heading committed for a tick driven by `intent`: a steering request
/// goes through the reversal rule, anything else keeps the current heading.
pub open spec fn intent_direction(pre: Game, intent: Intent) -> Direction {
    match intent {
        Intent::Steer(r) => pre.direction.apply_spec(r),
        _ => pre.direction,
    }
}

/// One full loop iteration for a steering or timeout intent: the heading rule
/// is applied first, the simulation advances one tick from that steered
/// state, and when the tick is survived the inter-tick budget decays once; a
/// lost tick leaves the steered session untouched.
pub open spec fn ticked(pre: Game, post: Game, intent: Intent, s: State) -> bool {
    let steered = Game { direction: intent_direction(pre, intent), ..pre };
    let stepped = Game { cycle_micros: pre.cycle_micros, ..post };
    let m = steered.field.marker_at(steered.next_head());
    &&& m == Block::Empty ==> s == State::Playing && stepped_into_empty(steered, stepped)
        && post.cycle_micros == decayed_cycle(pre.cycle_micros)
    &&& m == Block::Food ==> s == State::Playing && grew_on_food(steered, stepped)
        && post.cycle_micros == decayed_cycle(pre.cycle_micros)
    &&& m != Block::Empty && m != Block::Food ==> s == State::Lost && post == steered
}

/// One tick's outcome when the cell ahead is `Empty`: the head advances, the
/// tail cell is vacated, the chain keeps its length, and the field's `Empty`
/// cell count is unchanged (the cell vacated balances the cell occupied).
pub open spec fn stepped_into_empty(pre: Game, post: Game) -> bool {
    let nh = pre.next_head();
    &&& post.snake@ == seq![nh] + pre.snake@.drop_last()
    &&& post.direction == pre.direction
    &&& post.paused == pre.paused
    &&& post.cycle_micros == pre.cycle_micros
    &&& post.field.width == pre.field.width
    &&& post.field.height == pre.field.height
    &&& post.field.cell(nh) == Block::Head(pre.direction)
    &&& post.field.cell(pre.head()) == Block::Snake
    &&& post.field.cell(pre.tail()) == Block::Empty
    &&& forall|q: Position|
        pre.field.in_bounds(q) && q != nh && q != pre.head() && q != pre.tail()
            ==> post.field.cell(q) == pre.field.cell(q)
    &&& post.field.count(Block::Empty) == pre.field.count(Block::Empty)
}

/// The food marker moved to the formerly `Empty` cell `f`, and apart from the
/// advancing head no other cell changed.
pub open spec fn food_relocated(pre: Game, post: Game, f: Position) -> bool {
    &&& pre.field.in_bounds(f)
    &&& pre.field.cell(f) == Block::Empty
    &&& post.field.cell(f) == Block::Food
    &&& forall|q: Position|
        pre.field.in_bounds(q) && q != pre.next_head() && q != pre.head() && q != f
            ==> post.field.cell(q) == pre.field.cell(q)
}

/// One tick's outcome when the cell ahead holds `Food`: the head advances,
/// the chain grows by exactly one at the front, the tail stays, fresh food
/// appears on a previously `Empty` cell, and one `Empty` cell is used up.
pub open spec fn grew_on_food(pre: Game, post: Game) -> bool {
    let nh = pre.next_head();
    &&& post.snake@ == seq![nh] + pre.snake@
    &&& post.direction == pre.direction
    &&& post.paused == pre.paused
    &&& post.cycle_micros == pre.cycle_micros
    &&& post.field.width == pre.field.width
    &&& post.field.height == pre.field.height
    &&& post.field.cell(nh) == Block::Head(pre.direction)
    &&& post.field.cell(pre.head()) == Block::Snake
    &&& exists|f: Position| food_relocated(pre, post, f)
    &&& post.field.count(Block::Empty) + 1 == pre.field.count(Block::Empty)
    &&& post.field.count(Block::Food) == 1
}

/// A cell that reads `Empty` or `Food` lies on none of the snake's segments:
/// in particular, food never sits on the snake while the invariant holds.
pub proof fn lemma_free_cell_off_snake(g: Game, p: Position)
    requires
        g.wf(),
        g.field.in_bounds(p),
        g.field.cell(p) == Block::Empty || g.field.cell(p) == Block::Food,
    ensures
        forall|i: int| 0 <= i < g.snake@.len() ==> g.snake@[i] != p,
{
    assert forall|i: int| 0 <= i < g.snake@.len() implies g.snake@[i] != p by {
        if i == 0 {
            assert(!(g.field.cell(p) is Head));
        } else if g.snake@[i] == p {
            assert(exists|j: int| 1 <= j < g.snake@.len() && g.snake@[j] == p);
            assert(g.field.cell(p) == Block::Snake);
        }
    }
}

/// For a freshly laid-out session whose only non-`Empty` cells are the head,
/// the tail and the food cell, the food count is one.
proof fn lemma_session_counts(g: Game, head: Position, tail: Position, food: Position)
    requires
        g.field.wf(),
        g.field.in_bounds(head),
        g.field.in_bounds(tail),
        g.field.in_bounds(food),
        head != tail && food != head && food != tail,
        g.field.cell(head) == Block::Head(g.direction),
        g.field.cell(tail) == Block::Snake,
        g.field.cell(food) == Block::Food,
        forall|q: Position|
            g.field.in_bounds(q) && q != head && q != tail && q != food ==> #[trigger] g.field.cell(
                q,
            ) == Block::Empty,
    ensures
        g.field.count(Block::Food) == 1,
        g.field.count(Block::Empty) + 3 == g.field.width * g.field.height,
{
    let rows = g.field.grid();
    let e = Block::Empty;
    let fd = Block::Food;
    // Turning the three special cells into `Empty` one by one relates the
    // grid to the uniform all-`Empty` grid, whose counts are known.
    let g1 = rows.update(head.y as int, rows[head.y as int].update(head.x as int, e));
    lemma_count_grid_update(rows, head.y as int, head.x as int, e, fd);
    lemma_count_grid_update(rows, head.y as int, head.x as int, e, e);
    let g2 = g1.update(tail.y as int, g1[tail.y as int].update(tail.x as int, e));
    lemma_count_grid_update(g1, tail.y as int, tail.x as int, e, fd);
    lemma_count_grid_update(g1, tail.y as int, tail.x as int, e, e);
    let g3 = g2.update(food.y as int, g2[food.y as int].update(food.x as int, e));
    lemma_count_grid_update(g2, food.y as int, food.x as int, e, fd);
    lemma_count_grid_update(g2, food.y as int, food.x as int, e, e);
    assert(forall|y: int| 0 <= y < g3.len() ==> (#[trigger] g3[y]).len() == g.field.width);
    assert forall|y: int, x: int|
        0 <= y < g3.len() && 0 <= x < g3[y].len() implies g3[y][x] == e by {
        let q = Position { x: x as isize, y: y as isize };
        assert(g.field.in_bounds(q));
        assert(rows[y][x] == g.field.cell(q));
        if q != head && q != tail && q != food {
            assert(g.field.cell(q) == Block::Empty);
        }
    }
    lemma_count_grid_zero(g3, fd);
    lemma_count_grid_full(g3, g.field.width as nat, e);
}

} // verus!
