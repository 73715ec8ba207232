//! The snake's heading and the legality rule that forbids reversing in place.
use vstd::prelude::*;

verus! {

/// Current heading of the snake. The initial heading is `Right`.
#[derive(Clone, Copy, PartialEq, Eq, Structural, Debug)]
pub enum Direction {
    Right,
    Left,
    Up,
    Down,
}

/// Horizontal component of one step along a heading.
pub open spec fn delta_x(d: Direction) -> int {
    match d {
        Direction::Right => 1,
        Direction::Left => -1,
        Direction::Up => 0,
        Direction::Down => 0,
    }
}

/// Vertical component of one step along a heading.
pub open spec fn delta_y(d: Direction) -> int {
    match d {
        Direction::Right => 0,
        Direction::Left => 0,
        Direction::Up => 1,
        Direction::Down => -1,
    }
}

impl Direction {
    /// The exact opposite heading, the one a snake may never turn into.
    pub open spec fn opposite(self) -> Direction {
        match self {
            Direction::Right => Direction::Left,
            Direction::Left => Direction::Right,
            Direction::Up => Direction::Down,
            Direction::Down => Direction::Up,
        }
    }

    /// Unit step of this heading as (dx, dy).
    pub fn to_delta(&self) -> (d: (i32, i32))
        ensures
            d.0 == delta_x(*self),
            d.1 == delta_y(*self),
    {
        match self {
            Direction::Right => (1, 0),
            Direction::Left => (-1, 0),
            Direction::Up => (0, 1),
            Direction::Down => (0, -1),
        }
    }

    /// Replace the heading by the requested one unless the request is the
    /// exact opposite of the current heading, which is rejected.
    pub fn apply_input(&mut self, requested: Direction)
        ensures
            requested == old(self).opposite() ==> *final(self) == *old(self),
            requested != old(self).opposite() ==> *final(self) == requested,
    {
        let legal = match (requested, *self) {
            (Direction::Left, Direction::Right) => false,
            (Direction::Right, Direction::Left) => false,
            (Direction::Up, Direction::Down) => false,
            (Direction::Down, Direction::Up) => false,
            _ => true,
        };
        if legal {
            *self = requested;
        }
    }
}

impl Default for Direction {
    /// The default heading at the start of a game.
    fn default() -> (d: Self)
        ensures
            d == Direction::Right,
    {
        Direction::Right
    }
}

} // verus!
