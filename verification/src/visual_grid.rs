//! Where on the grid of tiles something is.

use vstd::prelude::*;

verus! {

/// The column and the row of a tile.
#[derive(Copy, Clone, PartialEq, Eq, Debug, Structural)]
pub struct TileCoordinate {
    pub x: i32,
    pub y: i32,
}

} // verus!
