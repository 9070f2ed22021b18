//! Coordinates, linear positions, compass orientations and relative turns.

use vstd::prelude::*;

verus! {

/// Identifier of a snake, unique within one game.
pub type SnakeId = u32;

/// Linear index of a cell: `x + y * BOARD_WIDTH`.
pub type Position = i32;

pub const BOARD_WIDTH: i32 = 32;

pub const BOARD_HEIGHT: i32 = 16;

/// Number of cells of the board.
pub const NB_CELLS: i32 = 512;

/// Whether `pos` is the index of a cell of the board.
pub open spec fn pos_in_bounds(pos: int) -> bool {
    0 <= pos < NB_CELLS
}

#[derive(Debug, Clone, Copy, PartialEq, Eq, Structural)]
pub struct Coordinate {
    pub x: i32,
    pub y: i32,
}

impl Coordinate {
    /// The linear index that belongs to this coordinate.
    pub open spec fn spec_to_pos(self) -> int {
        self.x + self.y * BOARD_WIDTH
    }

    /// The coordinate of a linear index: remainder and quotient by the
    /// board's width, both rounded towards zero.
    pub open spec fn spec_from_pos(position: int) -> Coordinate {
        if position >= 0 {
            Coordinate {
                x: (position % (BOARD_WIDTH as int)) as i32,
                y: (position / (BOARD_WIDTH as int)) as i32,
            }
        } else {
            Coordinate {
                x: (-((-position) % (BOARD_WIDTH as int))) as i32,
                y: (-((-position) / (BOARD_WIDTH as int))) as i32,
            }
        }
    }

    pub open spec fn spec_is_out_of_bounds(self) -> bool {
        self.x < 0 || self.x >= BOARD_WIDTH || self.y < 0 || self.y >= BOARD_HEIGHT
    }

    #[inline]
    pub fn to_pos(&self) -> (pos: i32)
        requires
            i32::MIN <= self.y * BOARD_WIDTH <= i32::MAX,
            i32::MIN <= self.spec_to_pos() <= i32::MAX,
        ensures
            pos == self.spec_to_pos(),
    {
        self.x + self.y * BOARD_WIDTH
    }

    #[inline]
    pub fn from_pos(position: i32) -> (coord: Self)
        ensures
            coord == Self::spec_from_pos(position as int),
    {
        Coordinate { x: position % BOARD_WIDTH, y: position / BOARD_WIDTH }
    }

    #[inline]
    pub fn is_out_of_bounds(&self) -> (out: bool)
        ensures
            out == self.spec_is_out_of_bounds(),
    {
        self.x < 0 || self.x >= BOARD_WIDTH || self.y < 0 || self.y >= BOARD_HEIGHT
    }
}

/// A turn relative to the direction a snake is heading.
#[derive(Debug, Clone, Copy, PartialEq, Eq, Structural)]
pub enum Action {
    Left,
    Front,
    Right,
}

#[derive(Debug, Clone, Copy, PartialEq, Eq, Structural)]
pub enum Orientation {
    North,
    East,
    South,
    West,
}

impl Action {
    /// Quarter turns clockwise that the action adds.
    pub open spec fn quarter_turns(self) -> int {
        match self {
            Action::Left => -1,
            Action::Front => 0,
            Action::Right => 1,
        }
    }

    /// The action that undoes this one.
    pub open spec fn inverse(self) -> Action {
        match self {
            Action::Left => Action::Right,
            Action::Front => Action::Front,
            Action::Right => Action::Left,
        }
    }
}

impl Orientation {
    /// Position on the compass, clockwise from north.
    pub open spec fn index(self) -> int {
        match self {
            Orientation::North => 0,
            Orientation::East => 1,
            Orientation::South => 2,
            Orientation::West => 3,
        }
    }

    /// The orientation at a compass position; positions are taken modulo 4.
    pub open spec fn from_index(i: int) -> Orientation {
        let r = i % 4;
        if r == 0 {
            Orientation::North
        } else if r == 1 {
            Orientation::East
        } else if r == 2 {
            Orientation::South
        } else {
            Orientation::West
        }
    }

    /// Change of `x` when moving one cell in this orientation.
    pub open spec fn dx(self) -> int {
        match self {
            Orientation::East => 1,
            Orientation::West => -1,
            _ => 0,
        }
    }

    /// Change of `y` when moving one cell in this orientation.
    pub open spec fn dy(self) -> int {
        match self {
            Orientation::South => 1,
            Orientation::North => -1,
            _ => 0,
        }
    }
}

/// The orientation reached from `current` by turning as `action` says:
/// the compass position moves by the action's quarter turns.
pub open spec fn spec_next_orientation(current: Orientation, action: Action) -> Orientation {
    Orientation::from_index(current.index() + action.quarter_turns())
}

pub fn next_orientation(current_orientation: &Orientation, action: &Action) -> (next: Orientation)
    ensures
        next == spec_next_orientation(*current_orientation, *action),
{
    match *current_orientation {
        Orientation::North => {
            match *action {
                Action::Left => Orientation::West,
                Action::Front => Orientation::North,
                Action::Right => Orientation::East,
            }
        },
        Orientation::East => {
            match *action {
                Action::Left => Orientation::North,
                Action::Front => Orientation::East,
                Action::Right => Orientation::South,
            }
        },
        Orientation::South => {
            match *action {
                Action::Left => Orientation::East,
                Action::Front => Orientation::South,
                Action::Right => Orientation::West,
            }
        },
        Orientation::West => {
            match *action {
                Action::Left => Orientation::South,
                Action::Front => Orientation::West,
                Action::Right => Orientation::North,
            }
        },
    }
}

/// Whether one step from `from` in `orientation` starts on the board's edge
/// and points off it.
pub open spec fn leaves_board(from: Coordinate, orientation: Orientation) -> bool {
    ||| orientation == Orientation::West && from.x == 0
    ||| orientation == Orientation::East && from.x == BOARD_WIDTH - 1
    ||| orientation == Orientation::North && from.y == 0
    ||| orientation == Orientation::South && from.y == BOARD_HEIGHT - 1
}

/// The coordinate one step from `from` in `orientation`.
pub open spec fn stepped(from: Coordinate, orientation: Orientation) -> Coordinate {
    Coordinate { x: (from.x + orientation.dx()) as i32, y: (from.y + orientation.dy()) as i32 }
}

pub open spec fn spec_next_coord_towards(from: Coordinate, orientation: Orientation) -> Option<
    Coordinate,
> {
    if leaves_board(from, orientation) {
        None
    } else {
        Some(stepped(from, orientation))
    }
}

/// Returns `None` if the move leads off the board.
pub fn next_coord_towards(from: &Coordinate, orientation: &Orientation) -> (next: Option<
    Coordinate,
>)
    requires
        i32::MIN < from.x < i32::MAX,
        i32::MIN < from.y < i32::MAX,
    ensures
        next == spec_next_coord_towards(*from, *orientation),
{
    if (*orientation == Orientation::West && from.x == 0) || (*orientation == Orientation::East
        && from.x == BOARD_WIDTH - 1) || (*orientation == Orientation::North && from.y == 0) || (
    *orientation == Orientation::South && from.y == BOARD_HEIGHT - 1) {
        return None;
    }
    let next_coord = match orientation {
        Orientation::North => Coordinate { x: from.x, y: from.y - 1 },
        Orientation::East => Coordinate { x: from.x + 1, y: from.y },
        Orientation::South => Coordinate { x: from.x, y: from.y + 1 },
        Orientation::West => Coordinate { x: from.x - 1, y: from.y },
    };
    Some(next_coord)
}

/// Turning by an action and then by its inverse gives the orientation back,
/// in either order.
pub proof fn lemma_turn_then_inverse(orientation: Orientation, action: Action)
    ensures
        spec_next_orientation(spec_next_orientation(orientation, action), action.inverse())
            == orientation,
        spec_next_orientation(spec_next_orientation(orientation, action.inverse()), action)
            == orientation,
        action.inverse().inverse() == action,
{
}

/// Turns compose as their quarter turns add up: the four orientations form
/// a cycle on which the actions act.
pub proof fn lemma_turns_add_up(orientation: Orientation, first: Action, second: Action)
    ensures
        spec_next_orientation(spec_next_orientation(orientation, first), second)
            == Orientation::from_index(
            orientation.index() + first.quarter_turns() + second.quarter_turns(),
        ),
        spec_next_orientation(orientation, Action::Front) == orientation,
{
}

/// A coordinate on the board and its linear index determine each other.
pub proof fn lemma_coordinate_position_bijection(coord: Coordinate)
    requires
        !coord.spec_is_out_of_bounds(),
    ensures
        pos_in_bounds(coord.spec_to_pos()),
        Coordinate::spec_from_pos(coord.spec_to_pos()) == coord,
{
}

/// A linear index on the board and its coordinate determine each other.
pub proof fn lemma_position_coordinate_bijection(pos: int)
    requires
        pos_in_bounds(pos),
    ensures
        !Coordinate::spec_from_pos(pos).spec_is_out_of_bounds(),
        Coordinate::spec_from_pos(pos).spec_to_pos() == pos,
{
}

/// From a coordinate on the board, a step is refused exactly when it would
/// end off the board.
pub proof fn lemma_next_coord_stays_on_board(from: Coordinate, orientation: Orientation)
    requires
        !from.spec_is_out_of_bounds(),
    ensures
        spec_next_coord_towards(from, orientation) is None <==> stepped(
            from,
            orientation,
        ).spec_is_out_of_bounds(),
        spec_next_coord_towards(from, orientation) matches Some(c)
            ==> !c.spec_is_out_of_bounds(),
{
}

} // verus!
