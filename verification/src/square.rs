//! Board squares.
//!
//! A square is an index in `0..64`, decomposed as `rank = index / 8` and
//! `file = index % 8`.  Construction is the enforcement boundary: every
//! `Square` value holds a valid index, so the lookup tables never see an
//! out-of-range square.

use vstd::prelude::*;

verus! {

/// A square of the 8x8 board, guaranteed in range by construction.
#[derive(Clone, Copy, PartialEq, Eq, Structural, Debug)]
pub struct Square {
    v: u8,
}

impl View for Square {
    type V = int;

    closed spec fn view(&self) -> int {
        self.v as int
    }
}

/// The square with index `i`, for use in specifications.
pub closed spec fn spec_square(i: int) -> Square {
    Square { v: i as u8 }
}

pub proof fn lemma_spec_square(i: int)
    requires
        0 <= i < 64,
    ensures
        spec_square(i)@ == i,
{
}

/// Squares with the same index are the same square.
pub proof fn lemma_square_view_injective(a: Square, b: Square)
    requires
        a@ == b@,
    ensures
        a == b,
{
}

impl Square {
    #[verifier::type_invariant]
    pub closed spec fn inv(self) -> bool {
        self.v < 64
    }

    /// The square with the given index.
    pub fn from_index(index: u8) -> (r: Square)
        requires
            index < 64,
        ensures
            r@ == index as int,
    {
        Square { v: index }
    }

    /// The square on the given file and rank.
    pub fn from_coords(file: u8, rank: u8) -> (r: Square)
        requires
            file < 8,
            rank < 8,
        ensures
            r@ == rank * 8 + file,
    {
        Square { v: rank * 8 + file }
    }

    /// The square's index in `0..64`.
    pub fn index(self) -> (r: u8)
        ensures
            r as int == self@,
            r < 64,
    {
        proof {
            use_type_invariant(self);
        }
        self.v
    }

    /// The square's file in `0..8`.
    pub fn file(self) -> (r: u8)
        ensures
            r as int == self@ % 8,
            r < 8,
    {
        proof {
            use_type_invariant(self);
        }
        self.v % 8
    }

    /// The square's rank in `0..8`.
    pub fn rank(self) -> (r: u8)
        ensures
            r as int == self@ / 8,
            r < 8,
    {
        proof {
            use_type_invariant(self);
        }
        self.v / 8
    }

}

} // verus!
