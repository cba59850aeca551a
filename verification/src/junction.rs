use vstd::prelude::*;

use crate::index::Index;
use crate::player::PlayerId;
use crate::port::Port;

verus! {

/// A settlement/city site at the meeting point of up to three hexes.
#[derive(Clone, Copy, Debug, PartialEq, Eq, Hash)]
pub struct Junction {
    pub index: Index,
    pub has_settlement: bool,
    pub has_city: bool,
    pub is_settleable: bool,
    pub port: Option<Port>,
    pub owner: Option<PlayerId>,
}

impl Junction {
    /// A fresh, unowned, settleable junction.
    pub fn new(index: Index, port: Option<Port>) -> (out: Junction)
        ensures
            out == (Junction {
                index,
                has_settlement: false,
                has_city: false,
                is_settleable: true,
                port,
                owner: None,
            }),
    {
        Junction {
            index,
            has_settlement: false,
            has_city: false,
            is_settleable: true,
            port,
            owner: None,
        }
    }
}

} // verus!
