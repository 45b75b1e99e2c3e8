use vstd::prelude::*;

use crate::utils::{in_bounds, is_unit_delta};

verus! {

/// One of the four directions of the board.
#[derive(Debug, Clone, Copy, PartialEq, Eq, Structural)]
pub enum Dir {
    Left,
    Right,
    Up,
    Down,
}

impl Dir {
    /// The unit step of a direction.
    pub open spec fn delta(self) -> (i16, i16) {
        match self {
            Dir::Left => (-1i16, 0i16),
            Dir::Right => (1i16, 0i16),
            Dir::Up => (0i16, 1i16),
            Dir::Down => (0i16, -1i16),
        }
    }

    pub fn to_delta(&self) -> (r: (i16, i16))
        ensures
            r == self.delta(),
            is_unit_delta(r),
    {
        match self {
            Dir::Left => (-1, 0),
            Dir::Right => (1, 0),
            Dir::Up => (0, 1),
            Dir::Down => (0, -1),
        }
    }
}

/// A cell of the board, as a pair of plain coordinates.
pub type PositionTuple = (u16, u16);

/// The cell an entity occupies.
#[derive(Debug, Clone, Copy, PartialEq, Eq, Hash, Structural)]
pub struct Position {
    pub x: u16,
    pub y: u16,
}

impl Position {
    pub open spec fn tuple(self) -> PositionTuple {
        (self.x, self.y)
    }

    pub fn to_tuple(&self) -> (r: PositionTuple)
        ensures
            r == self.tuple(),
    {
        (self.x, self.y)
    }

    /// The position of a cell given as a pair.
    pub fn from_tuple(t: PositionTuple) -> (r: Position)
        ensures
            r.tuple() == t,
    {
        Position { x: t.0, y: t.1 }
    }
}

/// The direction in which a trigger pushes.
#[derive(Debug, Clone, Copy, PartialEq, Eq, Structural)]
pub struct Orientation(pub Dir);

impl Orientation {
    pub fn to_delta(&self) -> (r: (i16, i16))
        ensures
            r == self.0.delta(),
            is_unit_delta(r),
    {
        self.0.to_delta()
    }
}

/// What the position store knows of one entity: where it stands and which
/// tags it carries. A trigger carries the direction it pushes in.
#[derive(Debug, Clone, Copy, PartialEq, Eq, Structural)]
pub struct EntityState {
    pub position: Position,
    pub movable: bool,
    pub immovable: bool,
    pub player_controlled: bool,
    pub trigger: Option<Orientation>,
}

impl EntityState {
    /// The entity stands on the board.
    pub open spec fn wf(self) -> bool {
        in_bounds(self.position.tuple())
    }

    /// The entity blocks a chain: immovable and not movable.
    pub open spec fn blocks(self) -> bool {
        self.immovable && !self.movable
    }
}

} // verus!
