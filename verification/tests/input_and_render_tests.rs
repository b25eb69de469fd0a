use snake::direction::Direction;
use snake::field::{Block, Field};
use snake::input::{map_key, Intent, Key};
use snake::position::Position;
use snake::render::format_number;

fn pos(x: isize, y: isize) -> Position {
    Position { x, y }
}

#[test]
fn arrows_steer() {
    assert_eq!(map_key(Key::ArrowUp), Intent::Steer(Direction::Up));
    assert_eq!(map_key(Key::ArrowRight), Intent::Steer(Direction::Right));
    assert_eq!(map_key(Key::ArrowDown), Intent::Steer(Direction::Down));
    assert_eq!(map_key(Key::ArrowLeft), Intent::Steer(Direction::Left));
}

#[test]
fn wasd_and_vi_aliases_steer() {
    assert_eq!(map_key(Key::Char('w')), Intent::Steer(Direction::Up));
    assert_eq!(map_key(Key::Char('a')), Intent::Steer(Direction::Left));
    assert_eq!(map_key(Key::Char('s')), Intent::Steer(Direction::Down));
    assert_eq!(map_key(Key::Char('d')), Intent::Steer(Direction::Right));
    assert_eq!(map_key(Key::Char('k')), Intent::Steer(Direction::Up));
    assert_eq!(map_key(Key::Char('h')), Intent::Steer(Direction::Left));
    assert_eq!(map_key(Key::Char('j')), Intent::Steer(Direction::Down));
    assert_eq!(map_key(Key::Char('l')), Intent::Steer(Direction::Right));
}

#[test]
fn pause_quit_and_everything_else() {
    assert_eq!(map_key(Key::Char('p')), Intent::TogglePause);
    assert_eq!(map_key(Key::CtrlC), Intent::Quit);
    assert_eq!(map_key(Key::Char('x')), Intent::Wait);
    assert_eq!(map_key(Key::Other), Intent::Wait);
}

#[test]
fn numbers_format_in_decimal() {
    assert_eq!(format_number(0), "0");
    assert_eq!(format_number(7), "7");
    assert_eq!(format_number(10), "10");
    assert_eq!(format_number(12345), "12345");
    assert_eq!(format_number(1000), "1000");
}

#[test]
fn render_draws_borders_cells_and_score() {
    let mut field = Field::new(2, 1);
    field.set_position(&pos(0, 0), Block::Snake);
    field.set_position(&pos(1, 0), Block::Food);
    let frame = field.render(0, false);
    assert_eq!(
        frame,
        "\u{250f}\u{2501}\u{2501}\u{2501}\u{2501}\u{2513}\r\n\u{2503}\u{2588}\u{2588}\u{2592}\u{2592}\u{2503}\r\n\u{2517}\u{2501} Score: 0 \u{251b}"
    );
}

#[test]
fn render_pads_the_bottom_border() {
    let field = Field::new(8, 1);
    let frame = field.render(12, false);
    let top: String = format!("\u{250f}{}\u{2513}\r\n", "\u{2501}".repeat(16));
    let row: String = format!("\u{2503}{}\u{2503}\r\n", " ".repeat(16));
    let bottom: String = format!("\u{2517}\u{2501} Score: 12 {}\u{251b}", "\u{2501}".repeat(4));
    assert_eq!(frame, format!("{}{}{}", top, row, bottom));
}

#[test]
fn render_shows_the_pause_indicator() {
    let field = Field::new(10, 1);
    let frame = field.render(3, true);
    let bottom_start = "\u{2517}\u{2501} Score: 3 PAUSED ";
    assert!(frame.contains(bottom_start));
}

#[test]
fn head_glyph_follows_the_heading() {
    let mut field = Field::new(1, 1);
    field.set_position(&pos(0, 0), Block::Head(Direction::Up));
    assert!(field.render(0, false).contains("\u{2580}\u{2580}"));
    field.set_position(&pos(0, 0), Block::Head(Direction::Down));
    assert!(field.render(0, false).contains("\u{2584}\u{2584}"));
    field.set_position(&pos(0, 0), Block::Head(Direction::Left));
    assert!(field.render(0, false).contains("\u{258c} "));
    field.set_position(&pos(0, 0), Block::Head(Direction::Right));
    assert!(field.render(0, false).contains(" \u{2590}"));
}
