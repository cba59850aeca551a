use vstd::prelude::*;

use crate::dev_card::DevCard;
use crate::index::Index;
use crate::player::PlayerId;
use crate::resource::Resource;
use crate::trade::Trade;

verus! {

/// A requested move.  Junction-, road- and hex-valued payloads carry the
/// coordinate of the targeted board node.
#[derive(Clone, Debug, PartialEq, Eq)]
pub enum Request {
    AcceptTrade,
    BuildCity(Index),
    BuildRoad(Index),
    BuildSettlement(Index),
    BuyDevCard,
    CancelTrade,
    ChooseInitialResources(Index),
    DeclineTrade,
    Discard(Vec<Resource>),
    EndTurn,
    MoveRobber(Index),
    OfferTrade(Trade),
    PlayKnight(Index),
    PlayMonopoly(Resource),
    PlayRoadBuilding(Index, Index),
    PlayVictoryPoint,
    PlayYearOfPlenty(Resource, Resource),
    RollDice(Option<u8>),
    StealFrom(PlayerId),
}

/// The user-facing, recoverable rejections.  The match state is unchanged
/// whenever one of these is returned.
#[derive(Clone, Copy, Debug, PartialEq, Eq, Structural)]
pub enum Error {
    CannotAfford,
    DiscardingTooMany,
    InvalidAction,
    InvalidTrade,
    PlayerNotFound,
}

/// What a successfully resolved move reports back.
#[derive(Clone, Copy, Debug, PartialEq, Eq)]
pub enum Payload {
    Drew(DevCard),
    GameOver(PlayerId),
    Monopolized(u32),
    Null,
    Rolled(u8),
    Stole(Option<Resource>),
}

pub type Response = Result<Payload, Error>;

} // verus!
