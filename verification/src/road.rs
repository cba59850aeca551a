use vstd::prelude::*;

use crate::index::Index;
use crate::player::PlayerId;

verus! {

/// How a road is drawn on the grid; purely presentational.
#[derive(Clone, Copy, Debug, PartialEq, Eq, Hash, Structural)]
pub enum RoadOrientation {
    BackSlash,
    ForwardSlash,
    Pipe,
}

/// A connector between two adjacent junctions.
#[derive(Clone, Copy, Debug, PartialEq, Eq, Hash)]
pub struct Road {
    pub index: Index,
    pub orientation: RoadOrientation,
    pub owner: Option<PlayerId>,
}

impl Road {
    /// A fresh, unowned road slot.
    pub fn new(index: Index, orientation: RoadOrientation) -> (out: Road)
        ensures
            out == (Road { index, orientation, owner: None }),
    {
        Road { index, orientation, owner: None }
    }
}

} // verus!
