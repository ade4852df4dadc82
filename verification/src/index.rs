//! A coordinate of the cube: zero to seven.

use vstd::prelude::*;

verus! {

/// A position along one axis of the cube.
#[derive(Clone, Copy, Debug, PartialEq, Eq, Structural)]
pub enum Index {
    Zero,
    One,
    Two,
    Three,
    Four,
    Five,
    Six,
    Seven,
}

impl Index {
    /// The coordinate as a number.
    pub open spec fn value(self) -> u8 {
        match self {
            Index::Zero => 0,
            Index::One => 1,
            Index::Two => 2,
            Index::Three => 3,
            Index::Four => 4,
            Index::Five => 5,
            Index::Six => 6,
            Index::Seven => 7,
        }
    }
}

impl From<Index> for u8 {
    fn from(item: Index) -> (v: u8) {
        match item {
            Index::Zero => 0,
            Index::One => 1,
            Index::Two => 2,
            Index::Three => 3,
            Index::Four => 4,
            Index::Five => 5,
            Index::Six => 6,
            Index::Seven => 7,
        }
    }
}

impl vstd::std_specs::convert::FromSpecImpl<Index> for u8 {
    open spec fn obeys_from_spec() -> bool {
        true
    }

    open spec fn from_spec(item: Index) -> u8 {
        item.value()
    }
}

} // verus!
