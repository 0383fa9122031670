//! Cardinal direction algebra for robot facing and movement.
//!
//! A robot faces one of four directions, indexed 0 through 3. Rotating
//! right advances the index modulo 4; rotating left retreats it. The
//! forward vector of a facing gives the (x, z) step taken by a forward
//! move; a backward move negates it. Up/down never change x or z.

use vstd::prelude::*;
use crate::strutil::str_eq;

verus! {

/// A cardinal direction. Doubles as a movement intent: `Forward` and
/// `Backward` are translations, `Right` and `Left` are rotations.
#[derive(Debug, PartialEq, Eq, Clone, Copy, Structural)]
pub enum JsonTurtleDirection {
    Forward,
    Right,
    Backward,
    Left,
}

/// The same four cardinal values as stored in persistent records.
#[derive(Debug, PartialEq, Eq, Clone, Copy, Structural)]
pub enum MoveDirection {
    Forward,
    Right,
    Backward,
    Left,
}

/// Index of a direction in rotation order.
pub open spec fn dir_index(d: JsonTurtleDirection) -> int {
    match d {
        JsonTurtleDirection::Forward => 0,
        JsonTurtleDirection::Right => 1,
        JsonTurtleDirection::Backward => 2,
        JsonTurtleDirection::Left => 3,
    }
}

/// Direction with the given rotation index.
pub open spec fn dir_of_index(i: int) -> JsonTurtleDirection {
    if i == 0 {
        JsonTurtleDirection::Forward
    } else if i == 1 {
        JsonTurtleDirection::Right
    } else if i == 2 {
        JsonTurtleDirection::Backward
    } else {
        JsonTurtleDirection::Left
    }
}

/// The (x, z) step of one forward move while facing `d`.
pub open spec fn spec_forward_vector(d: JsonTurtleDirection) -> (int, int) {
    match d {
        JsonTurtleDirection::Forward => (0, -1),
        JsonTurtleDirection::Right => (1, 0),
        JsonTurtleDirection::Backward => (0, 1),
        JsonTurtleDirection::Left => (-1, 0),
    }
}

/// The (x, y, z) step of moving with intent `intent` while facing `facing`.
/// Defined only for translational intents.
pub open spec fn spec_move_diff(intent: JsonTurtleDirection, facing: JsonTurtleDirection) -> (
    int,
    int,
    int,
) {
    let (fx, fz) = spec_forward_vector(facing);
    if intent == JsonTurtleDirection::Forward {
        (fx, 0, fz)
    } else {
        (-fx, 0, -fz)
    }
}

/// The facing after one rotation of `d` by `by` (`Right` or `Left`).
pub open spec fn spec_rotate(d: JsonTurtleDirection, by: JsonTurtleDirection) -> JsonTurtleDirection {
    if by == JsonTurtleDirection::Right {
        dir_of_index((dir_index(d) + 1) % 4)
    } else {
        dir_of_index((dir_index(d) + 3) % 4)
    }
}

impl JsonTurtleDirection {
    /// The (x, y, z) displacement of a move with intent `self` for a robot
    /// facing `turtle_rotation`. Only translational intents are meaningful.
    pub fn to_turtle_move_diff(&self, turtle_rotation: &JsonTurtleDirection) -> (r: (i32, i32, i32))
        requires
            *self == JsonTurtleDirection::Forward || *self == JsonTurtleDirection::Backward,
        ensures
            (r.0 as int, r.1 as int, r.2 as int) == spec_move_diff(*self, *turtle_rotation),
    {
        match turtle_rotation {
            JsonTurtleDirection::Right => match self {
                JsonTurtleDirection::Forward => (1, 0, 0),
                _ => (-1, 0, 0),
            },
            JsonTurtleDirection::Left => match self {
                JsonTurtleDirection::Forward => (-1, 0, 0),
                _ => (1, 0, 0),
            },
            JsonTurtleDirection::Forward => match self {
                JsonTurtleDirection::Forward => (0, 0, -1),
                _ => (0, 0, 1),
            },
            JsonTurtleDirection::Backward => match self {
                JsonTurtleDirection::Forward => (0, 0, 1),
                _ => (0, 0, -1),
            },
        }
    }

    /// Direction with rotation index `number`.
    pub fn from_i32(number: i32) -> (r: Self)
        requires
            0 <= number < 4,
        ensures
            r == dir_of_index(number as int),
    {
        match number {
            0 => Self::Forward,
            1 => Self::Right,
            2 => Self::Backward,
            _ => Self::Left,
        }
    }

    /// Rotation index of this direction.
    pub fn to_i32(&self) -> (r: i32)
        ensures
            r as int == dir_index(*self),
    {
        match self {
            Self::Forward => 0,
            Self::Right => 1,
            Self::Backward => 2,
            Self::Left => 3,
        }
    }

    /// Rotate this facing in place by `rotation`, which must be a
    /// rotational intent.
    pub fn rotate_self(&mut self, rotation: &JsonTurtleDirection)
        requires
            *rotation == JsonTurtleDirection::Right || *rotation == JsonTurtleDirection::Left,
        ensures
            *final(self) == spec_rotate(*old(self), *rotation),
    {
        let mut enum_number = self.to_i32();
        match rotation {
            JsonTurtleDirection::Right => {
                if enum_number == 3 {
                    enum_number = 0;
                } else {
                    enum_number = enum_number + 1;
                }
            },
            _ => {
                if enum_number == 0 {
                    enum_number = 3;
                } else {
                    enum_number = enum_number - 1;
                }
            },
        }
        *self = Self::from_i32(enum_number);
    }

    /// Lowercase wire spelling of this direction.
    pub fn to_direction_string(&self) -> (r: String)
        ensures
            r@ == spec_direction_string(*self),
    {
        match self {
            JsonTurtleDirection::Forward => "forward".to_owned(),
            JsonTurtleDirection::Backward => "backward".to_owned(),
            JsonTurtleDirection::Left => "left".to_owned(),
            JsonTurtleDirection::Right => "right".to_owned(),
        }
    }

    /// Parse the lowercase wire spelling; `None` on anything else.
    pub fn from_direction_str(s: &str) -> (r: Option<Self>)
        ensures
            r == spec_parse_direction(s@),
    {
        if str_eq(s, "forward") {
            Some(JsonTurtleDirection::Forward)
        } else if str_eq(s, "backward") {
            Some(JsonTurtleDirection::Backward)
        } else if str_eq(s, "left") {
            Some(JsonTurtleDirection::Left)
        } else if str_eq(s, "right") {
            Some(JsonTurtleDirection::Right)
        } else {
            None
        }
    }
}

/// Wire spelling of a direction.
pub open spec fn spec_direction_string(d: JsonTurtleDirection) -> Seq<char> {
    match d {
        JsonTurtleDirection::Forward => "forward"@,
        JsonTurtleDirection::Backward => "backward"@,
        JsonTurtleDirection::Left => "left"@,
        JsonTurtleDirection::Right => "right"@,
    }
}

/// Inverse of the wire spelling.
pub open spec fn spec_parse_direction(s: Seq<char>) -> Option<JsonTurtleDirection> {
    if s == "forward"@ {
        Some(JsonTurtleDirection::Forward)
    } else if s == "backward"@ {
        Some(JsonTurtleDirection::Backward)
    } else if s == "left"@ {
        Some(JsonTurtleDirection::Left)
    } else if s == "right"@ {
        Some(JsonTurtleDirection::Right)
    } else {
        None
    }
}

/// Rotating right and then left restores the facing, and four right
/// rotations are the identity.
pub proof fn lemma_rotation_inverse_and_period(d: JsonTurtleDirection)
    ensures
        spec_rotate(spec_rotate(d, JsonTurtleDirection::Right), JsonTurtleDirection::Left) == d,
        spec_rotate(
            spec_rotate(
                spec_rotate(spec_rotate(d, JsonTurtleDirection::Right), JsonTurtleDirection::Right),
                JsonTurtleDirection::Right,
            ),
            JsonTurtleDirection::Right,
        ) == d,
{
}

/// Rotating the facing right turns the forward vector a quarter turn
/// clockwise around the y axis: (dx, dz) becomes (-dz, dx).
pub proof fn lemma_forward_vector_rotation(d: JsonTurtleDirection)
    ensures
        spec_forward_vector(spec_rotate(d, JsonTurtleDirection::Right)).0 == -spec_forward_vector(
            d,
        ).1,
        spec_forward_vector(spec_rotate(d, JsonTurtleDirection::Right)).1 == spec_forward_vector(
            d,
        ).0,
{
}

/// The wire spelling parses back to the direction it spells.
pub proof fn lemma_direction_string_roundtrip(d: JsonTurtleDirection)
    ensures
        spec_parse_direction(spec_direction_string(d)) == Some(d),
{
    broadcast use vstd::string::group_string_axioms;

    reveal_strlit("forward");
    reveal_strlit("backward");
    reveal_strlit("left");
    reveal_strlit("right");
    assert("forward"@.len() == 7);
    assert("backward"@.len() == 8);
    assert("left"@.len() == 4);
    assert("right"@.len() == 5);
}

} // verus!
