use vstd::prelude::*;

use crate::player::PlayerId;
use crate::resource::ResourceCounts;

verus! {

/// The counterparty of a trade: the bank, or a set of player ids.
#[derive(Clone, Debug, PartialEq, Eq)]
pub enum TradeWith {
    Bank,
    Players(Vec<PlayerId>),
}

/// An offer to exchange the `giving` bundle for the `getting` bundle.
#[derive(Clone, Debug, PartialEq, Eq)]
pub struct Trade {
    pub giving: ResourceCounts,
    pub getting: ResourceCounts,
    pub with: TradeWith,
}

impl Trade {
    pub fn new(giving: ResourceCounts, getting: ResourceCounts, with: TradeWith) -> (out: Trade)
        ensures
            out.giving == giving,
            out.getting == getting,
            out.with == with,
    {
        Trade { giving, getting, with }
    }

    /// The content-free placeholder used by the legal-action catalog:
    /// concrete trade parameters are validated only when a move is
    /// submitted.
    pub fn empty() -> (out: Trade)
        ensures
            out.giving == ResourceCounts::zero(),
            out.getting == ResourceCounts::zero(),
            out.with matches TradeWith::Players(ps) && ps@ == Seq::<PlayerId>::empty(),
    {
        Trade {
            giving: ResourceCounts::new(),
            getting: ResourceCounts::new(),
            with: TradeWith::Players(Vec::new()),
        }
    }
}

} // verus!
