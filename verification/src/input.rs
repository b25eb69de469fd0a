use vstd::prelude::*;
use crate::direction::Direction;

verus! {

/// A raw keyboard event, reduced to what the game reacts to: an arrow key,
/// the interrupt chord, a plain unmodified character, or anything else.
#[derive(Clone, Copy, PartialEq, Eq, Structural, Debug)]
pub enum Key {
    ArrowUp,
    ArrowRight,
    ArrowDown,
    ArrowLeft,
    CtrlC,
    Char(char),
    Other,
}

/// What the player asks of the session on one tick: steer, toggle the pause,
/// force-quit, or nothing (any unmapped key, or a poll that timed out).
#[derive(Clone, Copy, PartialEq, Eq, Structural, Debug)]
pub enum Intent {
    Steer(Direction),
    TogglePause,
    Quit,
    Wait,
}

/// The intent behind one key: arrows and their vi- and WASD-style aliases
/// steer, `p` toggles the pause, the interrupt chord force-quits, and every
/// other key is ignored.
pub open spec fn intent_of(key: Key) -> Intent {
    match key {
        Key::ArrowUp => Intent::Steer(Direction::Up),
        Key::ArrowRight => Intent::Steer(Direction::Right),
        Key::ArrowDown => Intent::Steer(Direction::Down),
        Key::ArrowLeft => Intent::Steer(Direction::Left),
        Key::CtrlC => Intent::Quit,
        Key::Char(c) => {
            if c == 'w' || c == 'k' {
                Intent::Steer(Direction::Up)
            } else if c == 'd' || c == 'l' {
                Intent::Steer(Direction::Right)
            } else if c == 's' || c == 'j' {
                Intent::Steer(Direction::Down)
            } else if c == 'a' || c == 'h' {
                Intent::Steer(Direction::Left)
            } else if c == 'p' {
                Intent::TogglePause
            } else {
                Intent::Wait
            }
        },
        Key::Other => Intent::Wait,
    }
}

/// Map one raw key event to the player's intent.
pub fn map_key(key: Key) -> (i: Intent)
    ensures
        i == intent_of(key),
{
    match key {
        Key::ArrowUp => Intent::Steer(Direction::Up),
        Key::ArrowRight => Intent::Steer(Direction::Right),
        Key::ArrowDown => Intent::Steer(Direction::Down),
        Key::ArrowLeft => Intent::Steer(Direction::Left),
        Key::CtrlC => Intent::Quit,
        Key::Char(c) => {
            if c == 'w' || c == 'k' {
                Intent::Steer(Direction::Up)
            } else if c == 'd' || c == 'l' {
                Intent::Steer(Direction::Right)
            } else if c == 's' || c == 'j' {
                Intent::Steer(Direction::Down)
            } else if c == 'a' || c == 'h' {
                Intent::Steer(Direction::Left)
            } else if c == 'p' {
                Intent::TogglePause
            } else {
                Intent::Wait
            }
        },
        Key::Other => Intent::Wait,
    }
}

} // verus!
