use vstd::prelude::*;

verus! {

/// One of the four cardinal headings the snake can travel in.
#[derive(Clone, Copy, PartialEq, Eq, Structural, Debug)]
pub enum Direction {
    Up,
    Right,
    Down,
    Left,
}

impl Direction {
    /// The heading that points the opposite way.
    pub open spec fn opposite(self) -> Direction {
        match self {
            Direction::Up => Direction::Down,
            Direction::Right => Direction::Left,
            Direction::Down => Direction::Up,
            Direction::Left => Direction::Right,
        }
    }

    /// The heading in effect after requesting `requested` while travelling
    /// along `self`: a direct reversal is suppressed, any other request wins.
    pub open spec fn apply_spec(self, requested: Direction) -> Direction {
        if requested == self.opposite() {
            self
        } else {
            requested
        }
    }

    /// Commit a requested heading change, ignoring a direct reversal.
    pub fn set(&mut self, direction: &Direction)
        ensures
            *final(self) == old(self).apply_spec(*direction),
    {
        match (*self, *direction) {
            (Direction::Down, Direction::Up) => (),
            (Direction::Up, Direction::Down) => (),
            (Direction::Left, Direction::Right) => (),
            (Direction::Right, Direction::Left) => (),
            _ => *self = *direction,
        }
    }
}

/// Requesting the exact opposite of the current heading leaves it unchanged.
pub proof fn lemma_reversal_suppressed(h: Direction)
    ensures
        h.apply_spec(h.opposite()) == h,
{
}

/// Requesting anything but the exact opposite commits the request.
pub proof fn lemma_other_heading_taken(h: Direction, r: Direction)
    requires
        r != h.opposite(),
    ensures
        h.apply_spec(r) == r,
{
}

} // verus!
