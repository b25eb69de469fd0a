use snake::direction::Direction;
use snake::field::{Block, Field};
use snake::game::{Game, State, INITIAL_CYCLE_MICROS};
use snake::input::Intent;
use snake::position::Position;

fn pos(x: isize, y: isize) -> Position {
    Position { x, y }
}

fn count_marker(field: &Field, width: isize, height: isize, want: Block) -> usize {
    let mut n = 0;
    for y in 0..height {
        for x in 0..width {
            if field.get_position(&pos(x, y)) == want {
                n += 1;
            }
        }
    }
    n
}

fn food_cell(field: &Field, width: isize, height: isize) -> Option<Position> {
    for y in 0..height {
        for x in 0..width {
            if field.get_position(&pos(x, y)) == Block::Food {
                return Some(pos(x, y));
            }
        }
    }
    None
}

#[test]
fn boundary_reads_wall_on_every_side() {
    let field = Field::new(4, 3);
    assert_eq!(field.get_position(&pos(-1, 0)), Block::Wall);
    assert_eq!(field.get_position(&pos(4, 0)), Block::Wall);
    assert_eq!(field.get_position(&pos(0, -1)), Block::Wall);
    assert_eq!(field.get_position(&pos(0, 3)), Block::Wall);
    assert_eq!(field.get_position(&pos(0, 0)), Block::Empty);
}

#[test]
fn boundary_step_loses() {
    // Head on the left edge facing left: the next cell is outside the field.
    let mut game = Game::with_layout(10, 10, pos(0, 5), pos(1, 5), Direction::Left, pos(7, 7));
    let state = game.update();
    assert!(matches!(state, State::Lost));
    // The losing tick left the session untouched.
    assert_eq!(game.snake.len(), 2);
    assert_eq!(*game.snake.front().unwrap(), pos(0, 5));
    assert_eq!(game.field.get_position(&pos(1, 5)), Block::Snake);
}

#[test]
fn reversal_is_suppressed() {
    let mut d = Direction::Up;
    d.set(&Direction::Down);
    assert_eq!(d, Direction::Up);
    let mut d = Direction::Down;
    d.set(&Direction::Up);
    assert_eq!(d, Direction::Down);
    let mut d = Direction::Left;
    d.set(&Direction::Right);
    assert_eq!(d, Direction::Left);
    let mut d = Direction::Right;
    d.set(&Direction::Left);
    assert_eq!(d, Direction::Right);
}

#[test]
fn non_reversal_is_taken() {
    let mut d = Direction::Up;
    d.set(&Direction::Left);
    assert_eq!(d, Direction::Left);
    let mut d = Direction::Up;
    d.set(&Direction::Up);
    assert_eq!(d, Direction::Up);
    let mut d = Direction::Right;
    d.set(&Direction::Down);
    assert_eq!(d, Direction::Down);
}

#[test]
fn growth_is_conserved_without_food() {
    // Food far out of the snake's path: three ticks change nothing in size.
    let mut game = Game::with_layout(10, 10, pos(5, 5), pos(4, 5), Direction::Right, pos(0, 0));
    let empty_before = game.field.count_empty();
    for _ in 0..3 {
        let state = game.update();
        assert!(matches!(state, State::Playing));
    }
    assert_eq!(game.snake.len(), 2);
    assert_eq!(game.field.count_empty(), empty_before);
    assert_eq!(*game.snake.front().unwrap(), pos(8, 5));
}

#[test]
fn eating_grows_by_exactly_one() {
    let mut game = Game::with_layout(10, 10, pos(5, 5), pos(4, 5), Direction::Right, pos(6, 5));
    let empty_before = game.field.count_empty();
    let state = game.update();
    assert!(matches!(state, State::Playing));
    assert_eq!(game.snake.len(), 3);
    // Exactly one food cell afterwards, and it sits on nothing of the snake.
    assert_eq!(count_marker(&game.field, 10, 10, Block::Food), 1);
    let food = food_cell(&game.field, 10, 10).unwrap();
    assert!(!game.snake.contains(&food));
    // One empty cell was used up by the growth.
    assert_eq!(game.field.count_empty() + 1, empty_before);
}

#[test]
fn self_collision_loses_without_mutation() {
    // The tail sits directly ahead of the head: stepping into it is a loss.
    let mut game = Game::with_layout(10, 10, pos(5, 5), pos(6, 5), Direction::Right, pos(0, 0));
    let state = game.update();
    assert!(matches!(state, State::Lost));
    assert_eq!(game.snake.len(), 2);
    assert_eq!(*game.snake.front().unwrap(), pos(5, 5));
    assert_eq!(game.field.get_position(&pos(6, 5)), Block::Snake);
    assert_eq!(game.field.get_position(&pos(0, 0)), Block::Food);
}

#[test]
fn scenario_two_rights_eat_food() {
    let mut game = Game::with_layout(10, 10, pos(5, 5), pos(4, 5), Direction::Right, pos(7, 5));
    assert_eq!(game.snake.len(), 2);
    let state = game.handle_intent(Intent::Steer(Direction::Right));
    assert!(matches!(state, State::Playing));
    assert_eq!(*game.snake.front().unwrap(), pos(6, 5));
    let state = game.handle_intent(Intent::Steer(Direction::Right));
    assert!(matches!(state, State::Playing));
    assert_eq!(*game.snake.front().unwrap(), pos(7, 5));
    assert_eq!(game.snake.len(), 3);
    assert_eq!(game.score(), 1);
    // Fresh food appeared somewhere empty, distinct from the snake.
    assert_eq!(count_marker(&game.field, 10, 10, Block::Food), 1);
    let food = food_cell(&game.field, 10, 10).unwrap();
    assert!(!game.snake.contains(&food));
}

#[test]
fn scenario_up_then_down_is_suppressed() {
    let mut game = Game::with_layout(10, 10, pos(5, 5), pos(4, 5), Direction::Right, pos(7, 5));
    let state = game.handle_intent(Intent::Steer(Direction::Up));
    assert!(matches!(state, State::Playing));
    assert_eq!(*game.snake.front().unwrap(), pos(5, 4));
    // The reversal against the now-current Up heading is ignored.
    let state = game.handle_intent(Intent::Steer(Direction::Down));
    assert!(matches!(state, State::Playing));
    assert_eq!(*game.snake.front().unwrap(), pos(5, 3));
    assert_eq!(game.snake.len(), 2);
}

#[test]
fn pause_and_resume_change_nothing() {
    let mut game = Game::with_layout(10, 10, pos(5, 5), pos(4, 5), Direction::Right, pos(7, 5));
    let frame_before = game.field.render(game.score(), false);
    let head_before = *game.snake.front().unwrap();
    let cycle_before = game.cycle_micros;
    let direction_before = game.direction.clone();
    let state = game.handle_intent(Intent::TogglePause);
    assert!(matches!(state, State::Playing));
    assert!(game.paused);
    // While paused, other intents do nothing at all.
    let state = game.handle_intent(Intent::Steer(Direction::Up));
    assert!(matches!(state, State::Playing));
    assert_eq!(*game.snake.front().unwrap(), head_before);
    let state = game.handle_intent(Intent::TogglePause);
    assert!(matches!(state, State::Playing));
    assert!(!game.paused);
    assert_eq!(*game.snake.front().unwrap(), head_before);
    assert_eq!(game.snake.len(), 2);
    assert_eq!(game.cycle_micros, cycle_before);
    assert_eq!(game.direction, direction_before);
    let frame_after = game.field.render(game.score(), false);
    assert_eq!(frame_before, frame_after);
}

#[test]
fn quit_intent_leaves_session_alone() {
    let mut game = Game::with_layout(10, 10, pos(5, 5), pos(4, 5), Direction::Right, pos(7, 5));
    let state = game.handle_intent(Intent::Quit);
    assert!(matches!(state, State::Playing));
    assert_eq!(*game.snake.front().unwrap(), pos(5, 5));
    assert_eq!(game.cycle_micros, INITIAL_CYCLE_MICROS);
}

#[test]
fn surviving_tick_decays_cycle() {
    let mut game = Game::with_layout(10, 10, pos(5, 5), pos(4, 5), Direction::Right, pos(7, 5));
    assert_eq!(game.cycle_micros, 300000);
    let state = game.handle_intent(Intent::Wait);
    assert!(matches!(state, State::Playing));
    assert_eq!(game.cycle_micros, 300000 * 9997 / 10000);
    assert_eq!(game.cycle_micros, 299910);
}

#[test]
fn new_game_centres_the_snake() {
    let game = Game::new(10, 8);
    assert_eq!(game.snake.len(), 2);
    assert_eq!(*game.snake.front().unwrap(), pos(5, 4));
    assert_eq!(*game.snake.back().unwrap(), pos(4, 4));
    assert_eq!(game.direction, Direction::Right);
    assert!(!game.paused);
    assert_eq!(game.cycle_micros, INITIAL_CYCLE_MICROS);
    // 80 cells, minus two snake segments and one food cell.
    assert_eq!(game.field.count_empty(), 77);
    assert_eq!(count_marker(&game.field, 10, 8, Block::Food), 1);
}

#[test]
fn count_empty_counts_every_cell() {
    let field = Field::new(3, 3);
    assert_eq!(field.count_empty(), 9);
    let mut field = Field::new(3, 3);
    field.set_position(&pos(1, 1), Block::Snake);
    field.set_position(&pos(2, 0), Block::Food);
    assert_eq!(field.count_empty(), 7);
}

#[test]
fn food_lands_on_an_empty_cell() {
    // Fill all but two cells, so the relocated food has one legal home.
    let mut field = Field::new(2, 2);
    field.set_position(&pos(0, 0), Block::Snake);
    field.set_position(&pos(0, 1), Block::Snake);
    field.place_food();
    let food = food_cell(&field, 2, 2).unwrap();
    assert!(food == pos(1, 0) || food == pos(1, 1));
    assert_eq!(count_marker(&field, 2, 2, Block::Food), 1);
    assert_eq!(field.count_empty(), 1);
}
