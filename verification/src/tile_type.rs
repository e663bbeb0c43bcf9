//! The immutable kind of a tile: mine or blank.
use vstd::prelude::*;

verus! {

/// Whether a tile holds a mine. Assigned once during board generation and
/// never changed afterwards.
#[derive(Copy, Clone, PartialEq, Eq, Structural, Debug)]
pub enum TileType {
    Mine,
    Blank,
}

} // verus!
