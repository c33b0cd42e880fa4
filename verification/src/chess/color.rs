//! The two sides.

use vstd::prelude::*;

verus! {

/// A side: White moves first.
#[derive(Clone, Copy, Debug, PartialEq, Eq, Structural)]
pub enum Color {
    White,
    Black,
}

impl Color {
    /// The number that stands for this side: 0 for White, 1 for Black.
    pub open spec fn index(self) -> int {
        match self {
            Color::White => 0,
            Color::Black => 1,
        }
    }

    /// The other side.
    pub open spec fn flip(self) -> Color {
        match self {
            Color::White => Color::Black,
            Color::Black => Color::White,
        }
    }

    /// The number that stands for this side.
    pub fn ordinal(&self) -> (r: u8)
        ensures
            r == self.index(),
    {
        match self {
            Color::White => 0,
            Color::Black => 1,
        }
    }

    /// The side that a number stands for.
    pub fn from_ordinal(value: u8) -> (c: Color)
        requires
            value < 2,
        ensures
            c.index() == value,
    {
        if value == 0 {
            Color::White
        } else {
            Color::Black
        }
    }

    /// The other side.
    pub fn opposite(self) -> (r: Color)
        ensures
            r == self.flip(),
    {
        match self {
            Color::White => Color::Black,
            Color::Black => Color::White,
        }
    }
}

impl core::ops::Not for Color {
    type Output = Color;

    fn not(self) -> (r: Color) {
        self.opposite()
    }
}

impl vstd::std_specs::ops::NotSpecImpl for Color {
    open spec fn obeys_not_spec() -> bool {
        true
    }

    open spec fn not_req(self) -> bool {
        true
    }

    open spec fn not_spec(self) -> Color {
        self.flip()
    }
}

} // verus!
