use vstd::prelude::*;

verus! {

/// Number of distinct gem kinds.
pub const KIND_COUNT: usize = 5;

/// The colour of a gem.
#[derive(Clone, Copy, Debug, PartialEq, Eq, Structural)]
pub enum GemType {
    Red,
    Green,
    Blue,
    Yellow,
    Purple,
}

/// What a board cell holds: nothing, or a gem of some kind.
#[derive(Clone, Copy, Debug, PartialEq, Eq, Structural)]
pub enum Cell {
    Empty,
    Occupied(GemType),
}

/// The kind that the index `i` stands for; indices from 4 on give `Purple`.
pub open spec fn kind_of_index(i: int) -> GemType {
    if i == 0 {
        GemType::Red
    } else if i == 1 {
        GemType::Green
    } else if i == 2 {
        GemType::Blue
    } else if i == 3 {
        GemType::Yellow
    } else {
        GemType::Purple
    }
}

/// Relies on fastrand::usize: a uniformly drawn value of the range `0..n`.
#[verifier::external_body]
fn draw_below(n: usize) -> (r: usize)
    requires
        n > 0,
    ensures
        r < n,
{
    fastrand::usize(0..n)
}

impl GemType {
    /// The kind with index `i`; indices from 4 on all give `Purple`.
    pub fn from_index(i: usize) -> (g: GemType)
        ensures
            g == kind_of_index(i as int),
    {
        if i == 0 {
            GemType::Red
        } else if i == 1 {
            GemType::Green
        } else if i == 2 {
            GemType::Blue
        } else if i == 3 {
            GemType::Yellow
        } else {
            GemType::Purple
        }
    }

    /// A uniformly drawn kind.
    pub fn random() -> (g: GemType)
        ensures
            exists|i: int| 0 <= i < KIND_COUNT && g == kind_of_index(i),
    {
        let i = draw_below(KIND_COUNT);
        GemType::from_index(i)
    }
}

impl Cell {
    pub open spec fn is_occupied(self) -> bool {
        self is Occupied
    }

    pub fn occupied(&self) -> (r: bool)
        ensures
            r == self.is_occupied(),
    {
        match self {
            Cell::Empty => false,
            Cell::Occupied(_) => true,
        }
    }
}

/// The board position that a drawn gem stands for.
#[derive(Clone, Copy, Debug, PartialEq, Eq, Structural)]
pub struct Gem {
    pub x: usize,
    pub y: usize,
}

} // verus!
