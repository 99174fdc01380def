//! The four cardinal directions and per-direction tables.

use vstd::prelude::*;
use crate::coord::Coord;

verus! {

/// A cardinal direction, in the screen convention where `y` grows downwards:
/// north is one step towards smaller `y`.
#[derive(Clone, Copy, Debug, PartialEq, Eq, Structural)]
pub enum CardinalDirection {
    North,
    East,
    South,
    West,
}

pub const NUM_CARDINAL_DIRECTIONS: usize = 4;

impl CardinalDirection {
    /// The unit offset of this direction along the `x` axis.
    pub open spec fn spec_dx(self) -> int {
        match self {
            CardinalDirection::North => 0,
            CardinalDirection::East => 1,
            CardinalDirection::South => 0,
            CardinalDirection::West => -1,
        }
    }

    /// The unit offset of this direction along the `y` axis.
    pub open spec fn spec_dy(self) -> int {
        match self {
            CardinalDirection::North => -1,
            CardinalDirection::East => 0,
            CardinalDirection::South => 1,
            CardinalDirection::West => 0,
        }
    }

    pub open spec fn spec_opposite(self) -> CardinalDirection {
        match self {
            CardinalDirection::North => CardinalDirection::South,
            CardinalDirection::East => CardinalDirection::West,
            CardinalDirection::South => CardinalDirection::North,
            CardinalDirection::West => CardinalDirection::East,
        }
    }

    pub fn opposite(self) -> (r: CardinalDirection)
        ensures
            r == self.spec_opposite(),
    {
        match self {
            CardinalDirection::North => CardinalDirection::South,
            CardinalDirection::East => CardinalDirection::West,
            CardinalDirection::South => CardinalDirection::North,
            CardinalDirection::West => CardinalDirection::East,
        }
    }

    /// The coordinate one step in this direction from `coord`.
    pub fn step(self, coord: Coord) -> (r: Coord)
        requires
            i32::MIN < coord.x < i32::MAX,
            i32::MIN < coord.y < i32::MAX,
        ensures
            r.x == coord.x + self.spec_dx(),
            r.y == coord.y + self.spec_dy(),
    {
        match self {
            CardinalDirection::North => Coord { x: coord.x, y: coord.y - 1 },
            CardinalDirection::East => Coord { x: coord.x + 1, y: coord.y },
            CardinalDirection::South => Coord { x: coord.x, y: coord.y + 1 },
            CardinalDirection::West => Coord { x: coord.x - 1, y: coord.y },
        }
    }

    /// The directions in their fixed iteration order: north, east, south, west.
    pub open spec fn spec_from_index(i: int) -> CardinalDirection {
        if i == 0 {
            CardinalDirection::North
        } else if i == 1 {
            CardinalDirection::East
        } else if i == 2 {
            CardinalDirection::South
        } else {
            CardinalDirection::West
        }
    }

    pub fn from_index(i: usize) -> (r: CardinalDirection)
        requires
            i < 4,
        ensures
            r == CardinalDirection::spec_from_index(i as int),
    {
        if i == 0 {
            CardinalDirection::North
        } else if i == 1 {
            CardinalDirection::East
        } else if i == 2 {
            CardinalDirection::South
        } else {
            CardinalDirection::West
        }
    }
}

/// A table holding one value for each cardinal direction.
#[derive(Clone, Copy, Debug, PartialEq, Eq, Structural)]
pub struct CardinalDirectionTable<T> {
    pub north: T,
    pub east: T,
    pub south: T,
    pub west: T,
}

impl<T> CardinalDirectionTable<T> {
    pub fn new_array(north: T, east: T, south: T, west: T) -> (r: CardinalDirectionTable<T>)
        ensures
            r.north == north,
            r.east == east,
            r.south == south,
            r.west == west,
    {
        CardinalDirectionTable { north, east, south, west }
    }

    pub open spec fn spec_get(self, direction: CardinalDirection) -> T {
        match direction {
            CardinalDirection::North => self.north,
            CardinalDirection::East => self.east,
            CardinalDirection::South => self.south,
            CardinalDirection::West => self.west,
        }
    }

    pub fn get(&self, direction: CardinalDirection) -> (r: &T)
        ensures
            *r == self.spec_get(direction),
    {
        match direction {
            CardinalDirection::North => &self.north,
            CardinalDirection::East => &self.east,
            CardinalDirection::South => &self.south,
            CardinalDirection::West => &self.west,
        }
    }

    pub fn set(&mut self, direction: CardinalDirection, value: T)
        ensures
            final(self).spec_get(direction) == value,
            forall|d: CardinalDirection|
                d != direction ==> final(self).spec_get(d) == old(self).spec_get(d),
    {
        match direction {
            CardinalDirection::North => self.north = value,
            CardinalDirection::East => self.east = value,
            CardinalDirection::South => self.south = value,
            CardinalDirection::West => self.west = value,
        }
    }
}

} // verus!
