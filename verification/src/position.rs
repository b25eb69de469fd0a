use vstd::prelude::*;
use crate::direction::Direction;

verus! {

/// A grid-relative coordinate, used as a plain value.
#[derive(Clone, Copy, PartialEq, Eq, Structural, Debug)]
pub struct Position {
    pub x: isize,
    pub y: isize,
}

impl Position {
    /// The coordinate one cell away from `self` along `direction`.
    pub open spec fn step_spec(self, direction: Direction) -> Position {
        match direction {
            Direction::Up => Position { x: self.x, y: (self.y - 1) as isize },
            Direction::Right => Position { x: (self.x + 1) as isize, y: self.y },
            Direction::Down => Position { x: self.x, y: (self.y + 1) as isize },
            Direction::Left => Position { x: (self.x - 1) as isize, y: self.y },
        }
    }

    /// Move one cell along `direction`.
    pub fn step(&self, direction: &Direction) -> (p: Position)
        requires
            isize::MIN < self.x < isize::MAX,
            isize::MIN < self.y < isize::MAX,
        ensures
            p == self.step_spec(*direction),
    {
        let mut new = self.clone();
        match direction {
            Direction::Up => new.y = new.y - 1,
            Direction::Right => new.x = new.x + 1,
            Direction::Down => new.y = new.y + 1,
            Direction::Left => new.x = new.x - 1,
        }
        new
    }
}

} // verus!
