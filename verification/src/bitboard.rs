//! The bitboard value type.

use vstd::prelude::*;
use crate::bits::{bit, popcnt, popcnt_upto};
use crate::square::Square;

verus! {

/// A set of squares: bit `i` is set exactly when square `i` is in the set.
#[derive(Clone, Copy, PartialEq, Eq, Structural, Debug)]
pub struct Bitboard(pub u64);

impl View for Bitboard {
    type V = u64;

    open spec fn view(&self) -> u64 {
        self.0
    }
}

impl Bitboard {
    /// Tests whether the square is in the set.
    pub fn contains(self, sq: Square) -> (r: bool)
        ensures
            r == bit(self.0, sq@),
    {
        (self.0 >> sq.index()) & 1u64 == 1u64
    }

    /// Number of squares in the set.
    pub fn count(self) -> (r: u32)
        ensures
            r == popcnt(self.0),
    {
        let mut n: u32 = 0;
        let mut i: u8 = 0;
        while i < 64
            invariant
                i <= 64,
                n == popcnt_upto(self.0, i as int),
                n <= i,
            decreases 64 - i,
        {
            if (self.0 >> i) & 1u64 == 1u64 {
                n = n + 1;
            }
            i = i + 1;
        }
        n
    }
}

} // verus!
