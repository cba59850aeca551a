use vstd::prelude::*;

use crate::index::Index;
use crate::resource::Resource;

verus! {

/// A producing land hex: the resource it yields and the dice total that
/// triggers it.
#[derive(Clone, Copy, Debug, PartialEq, Eq, Hash)]
pub struct HexResource {
    pub resource: Resource,
    pub roll: u8,
}

/// What a hex cell is: open water, the single desert, or a producing
/// land hex.
#[derive(Clone, Copy, Debug, PartialEq, Eq, Hash)]
pub enum HexType {
    Desert,
    Ocean,
    WithResource(HexResource),
}

/// A land/ocean/desert board cell.
#[derive(Clone, Copy, Debug, PartialEq, Eq, Hash)]
pub struct Hex {
    pub index: Index,
    pub hex_type: HexType,
}

impl Hex {
    pub fn new(index: Index, hex_type: HexType) -> (out: Hex)
        ensures
            out == (Hex { index, hex_type }),
    {
        Hex { index, hex_type }
    }
}

} // verus!
