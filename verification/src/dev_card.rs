use vstd::prelude::*;

verus! {

/// The development-card kinds.
#[derive(Clone, Copy, Debug, PartialEq, Eq, Hash, Structural)]
pub enum DevCard {
    Knight,
    VictoryPoint,
    Monopoly,
    RoadBuilding,
    YearOfPlenty,
}

/// Play-state of one card in a player's hand.  A card in state
/// `AlreadyPlayed` can never be replayed in the same match.
#[derive(Clone, Copy, Debug, PartialEq, Eq, Hash, Structural)]
pub enum DevCardState {
    AlreadyPlayed,
    CanPlay,
    CannotPlay,
}

/// One development card held by a player, with its play-state.
#[derive(Clone, Copy, Debug, PartialEq, Eq, Hash, Structural)]
pub struct DevCardInHand {
    pub card: DevCard,
    pub state: DevCardState,
}

impl DevCardInHand {
    /// Spec view of a newly bought card.
    pub open spec fn new_spec(card: DevCard) -> DevCardInHand {
        DevCardInHand {
            card,
            state: if card == DevCard::VictoryPoint {
                DevCardState::CanPlay
            } else {
                DevCardState::CannotPlay
            },
        }
    }

    /// A newly bought card: victory-point cards are playable at once,
    /// every other kind must wait for the next turn.
    pub fn new(card: DevCard) -> (out: DevCardInHand)
        ensures
            out == DevCardInHand::new_spec(card),
    {
        let state = match card {
            DevCard::VictoryPoint => DevCardState::CanPlay,
            _ => DevCardState::CannotPlay,
        };
        DevCardInHand { card, state }
    }
}

} // verus!
