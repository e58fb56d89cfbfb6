use vstd::prelude::*;

verus! {

/// Number of buttons on each side of the square board.
pub const LINE: usize = 15;

/// Side of one button, in pixels.
pub const SIZE: u32 = 50;

/// The value of `ButtonInfo::number` that marks a mine.
pub const MINE: u8 = 9;

/// Seed values are drawn from `0..SEED_RANGE`; the value `MINE` puts a
/// mine, so about one button in `SEED_RANGE` holds one.
pub const SEED_RANGE: u8 = 10;

} // verus!
