//! The two attributes a tile is given when it is created.

use rand::Rng;
use vstd::prelude::*;

verus! {

/// The colour of a tile. The declaration order is the order of the values.
#[derive(Clone, Copy, Debug, PartialEq, Eq, PartialOrd, Ord, Structural)]
pub enum Color {
    Blue,
    Red,
    Yellow,
}

/// The shape of a tile. The declaration order is the order of the values.
#[derive(Clone, Copy, Debug, PartialEq, Eq, PartialOrd, Ord, Structural)]
pub enum Shape {
    Diamond,
    Circle,
    Triangle,
}

impl Color {
    /// The colour that a draw selects: 0 is blue, 1 is red, anything else
    /// is yellow.
    pub open spec fn of_draw(draw: int) -> Color {
        if draw == 0 {
            Color::Blue
        } else if draw == 1 {
            Color::Red
        } else {
            Color::Yellow
        }
    }

    /// The place of the colour in the declaration order.
    pub open spec fn rank(self) -> nat {
        match self {
            Color::Blue => 0,
            Color::Red => 1,
            Color::Yellow => 2,
        }
    }

    /// Turns a draw into a colour.
    pub fn from_draw(draw: i32) -> (color: Color)
        ensures
            color == Color::of_draw(draw as int),
    {
        match draw {
            0 => Color::Blue,
            1 => Color::Red,
            _ => Color::Yellow,
        }
    }

    /// The place of the colour in the declaration order.
    pub fn index(&self) -> (i: usize)
        ensures
            i == self.rank(),
    {
        match self {
            Color::Blue => 0,
            Color::Red => 1,
            Color::Yellow => 2,
        }
    }
}

impl Shape {
    /// The shape that a draw selects: 0 is a diamond, 1 is a circle,
    /// anything else is a triangle.
    pub open spec fn of_draw(draw: int) -> Shape {
        if draw == 0 {
            Shape::Diamond
        } else if draw == 1 {
            Shape::Circle
        } else {
            Shape::Triangle
        }
    }

    /// The place of the shape in the declaration order.
    pub open spec fn rank(self) -> nat {
        match self {
            Shape::Diamond => 0,
            Shape::Circle => 1,
            Shape::Triangle => 2,
        }
    }

    /// Turns a draw into a shape.
    pub fn from_draw(draw: i32) -> (shape: Shape)
        ensures
            shape == Shape::of_draw(draw as int),
    {
        match draw {
            0 => Shape::Diamond,
            1 => Shape::Circle,
            _ => Shape::Triangle,
        }
    }

    /// The place of the shape in the declaration order.
    pub fn index(&self) -> (i: usize)
        ensures
            i == self.rank(),
    {
        match self {
            Shape::Diamond => 0,
            Shape::Circle => 1,
            Shape::Triangle => 2,
        }
    }
}

/// The frame of the sprite sheet that shows a tile: the sheet has one row of
/// three colours per shape.
pub open spec fn frame_of(color: Color, shape: Shape) -> nat {
    color.rank() + 3 * shape.rank()
}

/// Computes the sprite-sheet frame of a colour and shape.
pub fn atlas_index(color: Color, shape: Shape) -> (frame: usize)
    ensures
        frame == frame_of(color, shape),
        frame < 9,
{
    color.index() + 3 * shape.index()
}

/// `Rng::gen_range(0..=2)` on `rand::thread_rng()`: one of 0, 1 and 2, chosen
/// by the thread's generator. Nothing more is known of the value, and two
/// draws need not agree. The generator seeds itself from the operating system
/// on first use and panics if the system has no randomness to give.
#[verifier::external_body]
pub(crate) fn draw() -> (value: i32)
    ensures
        0 <= value <= 2,
{
    rand::thread_rng().gen_range(0..=2)
}

} // verus!
