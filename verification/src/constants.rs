use vstd::prelude::*;

verus! {

/// Number of tile columns of a level; the rightmost column a push scans.
pub const MAP_WIDTH: u8 = 8;

/// Number of tile rows of a level; the lowest row a push scans.
pub const MAP_HEIGHT: u8 = 9;

} // verus!
