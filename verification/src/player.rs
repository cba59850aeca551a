use vstd::prelude::*;

use crate::dev_card::DevCard;
use crate::dev_card::DevCardInHand;
use crate::dev_card::DevCardState;
use crate::index::Index;
use crate::junction::Junction;
use crate::port::Port;
use crate::resource::Resource;
use crate::resource::ResourceCounts;
use crate::road::Road;

verus! {

pub type PlayerId = u64;

/// The seven player states; each one has its own legal-move set.
#[derive(Clone, Copy, Debug, PartialEq, Eq, Structural)]
pub enum PlayerState {
    AfterBuildingFreeSettlement,
    AfterRollingSeven,
    ChooseInitialResources,
    Root,
    Stealing,
    WaitForTurn,
    WaitForTradeResponses,
}

/// Victory points split into what is visible to rivals and the full
/// tally including undisclosed victory-point cards.
#[derive(Clone, Copy, Debug, PartialEq, Eq, Structural)]
pub struct VictoryPoints {
    pub public: u32,
    pub private: u32,
}

impl VictoryPoints {
    pub fn new() -> (out: VictoryPoints)
        ensures
            out == (VictoryPoints { public: 0, private: 0 }),
    {
        VictoryPoints { public: 0, private: 0 }
    }
}

pub const DEFAULT_BANK_TRADE_RATE: u32 = 4;

pub const GENERIC_PORT_BANK_TRADE_RATE: u32 = 3;

pub const SPECIALTY_PORT_BANK_TRADE_RATE: u32 = 2;

/// Cap on trade offers in one turn.
pub const MAX_TRADES_PER_TURN: u32 = 4294967294;

/// One participant: hand, built structures, development cards with
/// their play-state, and the derived bank trade rates.
#[derive(Clone, Debug)]
pub struct Player {
    pub id: PlayerId,
    pub state: PlayerState,
    pub hand: ResourceCounts,
    pub victory_points: VictoryPoints,
    pub cities: Vec<Index>,
    pub roads: Vec<Index>,
    pub settlements: Vec<Index>,
    pub army_size: u32,
    pub dev_cards: Vec<DevCardInHand>,
    pub has_played_dev_card: bool,
    pub num_trades_offered_this_turn: u32,
    pub num_to_discard: u64,
    pub has_declined_trade: bool,
    pub bank_trade_rates: ResourceCounts,
}

/// The bank trade rate for `r` after settling a junction with port `p`,
/// starting from the current rate `cur`.  Rates only ever improve.
pub open spec fn rate_after(p: Option<Port>, r: Resource, cur: u32) -> u32 {
    match p {
        Some(Port::Only(specialty)) => if r == specialty {
            SPECIALTY_PORT_BANK_TRADE_RATE
        } else {
            cur
        },
        Some(Port::Any) => if cur < GENERIC_PORT_BANK_TRADE_RATE {
            cur
        } else {
            GENERIC_PORT_BANK_TRADE_RATE
        },
        None => cur,
    }
}

/// The new-turn flip of one development card: cards bought on an
/// earlier turn become playable.
pub open spec fn card_refreshed(c: DevCardInHand) -> DevCardInHand {
    if c.state == DevCardState::CannotPlay {
        DevCardInHand { card: c.card, state: DevCardState::CanPlay }
    } else {
        c
    }
}

/// The position of the first card of kind `card` that is playable now,
/// scanning from `k`; the hand's length when there is none.
pub open spec fn first_playable(s: Seq<DevCardInHand>, card: DevCard, k: int) -> int
    decreases s.len() - k,
        when 0 <= k <= s.len()
{
    if k >= s.len() {
        s.len() as int
    } else if s[k].card == card && s[k].state == DevCardState::CanPlay {
        k
    } else {
        first_playable(s, card, k + 1)
    }
}

impl Player {
    /// Structural validity: distinct building lists, bank rates in the
    /// honest 2..=4 range, and counters small enough that one move's
    /// arithmetic cannot overflow.
    pub open spec fn wf(self) -> bool {
        &&& self.roads@.no_duplicates()
        &&& self.settlements@.no_duplicates()
        &&& self.cities@.no_duplicates()
        &&& forall|i: int|
            0 <= i < self.cities@.len() ==> self.settlements@.contains(#[trigger] self.cities@[i])
        &&& forall|r: Resource| 2 <= #[trigger] self.bank_trade_rates.cnt(r) <= 4
        &&& forall|r: Resource| #[trigger] self.hand.cnt(r) <= 0x1000000
        &&& self.victory_points.public <= 0x1000000
        &&& self.victory_points.private <= 0x1000000
        &&& self.victory_points.private >= self.victory_points.public
        &&& self.army_size <= 0x1000000
    }

    /// A fresh participant waiting for their first turn.
    pub fn new(id: PlayerId) -> (out: Player)
        ensures
            out.id == id,
            out.state == PlayerState::WaitForTurn,
            out.hand == ResourceCounts::zero(),
            out.victory_points == (VictoryPoints { public: 0, private: 0 }),
            out.cities@ == Seq::<Index>::empty(),
            out.roads@ == Seq::<Index>::empty(),
            out.settlements@ == Seq::<Index>::empty(),
            out.army_size == 0,
            out.dev_cards@ == Seq::<DevCardInHand>::empty(),
            !out.has_played_dev_card,
            out.num_trades_offered_this_turn == 0,
            out.num_to_discard == 0,
            !out.has_declined_trade,
            forall|r: Resource| #[trigger] out.bank_trade_rates.cnt(r) == DEFAULT_BANK_TRADE_RATE,
            out.wf(),
    {
        Player {
            id,
            state: PlayerState::WaitForTurn,
            hand: ResourceCounts::new(),
            victory_points: VictoryPoints::new(),
            cities: Vec::new(),
            roads: Vec::new(),
            settlements: Vec::new(),
            army_size: 0,
            dev_cards: Vec::new(),
            has_played_dev_card: false,
            num_trades_offered_this_turn: 0,
            num_to_discard: 0,
            has_declined_trade: false,
            bank_trade_rates: ResourceCounts::uniform(DEFAULT_BANK_TRADE_RATE),
        }
    }

    /// Whether the hand covers a cost, kind by kind.
    pub fn can_afford(&self, cost: &ResourceCounts) -> (out: bool)
        ensures
            out == self.hand.covers(*cost),
    {
        self.hand.can_cover(cost)
    }

    /// Removes a cost from the hand.  By the time this runs the catalog
    /// must already have validated affordability, so an uncovered cost
    /// is ruled out up front rather than detected at run time.
    pub fn spend(&mut self, cost: &ResourceCounts)
        requires
            old(self).hand.covers(*cost),
        ensures
            *final(self) == (Player { hand: old(self).hand.minus(*cost), ..*old(self) }),
    {
        self.hand = self.hand.sub_all(cost);
    }

    /// Adds a windfall to the hand.
    pub fn accrue(&mut self, windfall: &ResourceCounts)
        requires
            old(self).hand.add_fits(*windfall),
        ensures
            *final(self) == (Player { hand: old(self).hand.plus(*windfall), ..*old(self) }),
    {
        self.hand = self.hand.add_all(windfall);
    }

    pub fn bank_trade_rate(&self, resource: &Resource) -> (out: u32)
        ensures
            out == self.bank_trade_rates.cnt(*resource),
    {
        self.bank_trade_rates.get(*resource)
    }

    /// Start-of-turn reset: per-turn counters clear and every card
    /// bought earlier becomes playable.
    pub fn reset_for_new_turn(&mut self)
        ensures
            final(self).num_trades_offered_this_turn == 0,
            !final(self).has_played_dev_card,
            !final(self).has_declined_trade,
            final(self).dev_cards@ == old(self).dev_cards@.map_values(
                |c: DevCardInHand| card_refreshed(c),
            ),
            *final(self) == (Player {
                num_trades_offered_this_turn: 0,
                has_played_dev_card: false,
                has_declined_trade: false,
                dev_cards: final(self).dev_cards,
                ..*old(self)
            }),
    {
        self.num_trades_offered_this_turn = 0;
        self.has_played_dev_card = false;
        self.has_declined_trade = false;
        let n = self.dev_cards.len();
        let mut i: usize = 0;
        while i < n
            invariant
                n == self.dev_cards@.len(),
                i <= n,
                *self == (Player {
                    dev_cards: self.dev_cards,
                    num_trades_offered_this_turn: 0,
                    has_played_dev_card: false,
                    has_declined_trade: false,
                    ..*old(self)
                }),
                forall|k: int|
                    0 <= k < i ==> self.dev_cards@[k] == card_refreshed(old(self).dev_cards@[k]),
                forall|k: int| i <= k < n ==> self.dev_cards@[k] == old(self).dev_cards@[k],
            decreases n - i,
        {
            let c = self.dev_cards[i];
            if matches!(c.state, DevCardState::CannotPlay) {
                self.dev_cards.set(
                    i,
                    DevCardInHand { card: c.card, state: DevCardState::CanPlay },
                );
            }
            i += 1;
        }
        proof {
            assert(final(self).dev_cards@ =~= old(self).dev_cards@.map_values(
                |c: DevCardInHand| card_refreshed(c),
            ));
        }
    }

    /// Marks the first playable card of the given kind as played, and
    /// blocks further development-card plays this turn.  The catalog
    /// guarantees a matching playable card exists.
    pub fn use_dev_card(&mut self, used_dev_card: &DevCard)
        requires
            exists|k: int|
                0 <= k < old(self).dev_cards@.len() && (#[trigger] old(self).dev_cards@[k]).card
                    == *used_dev_card && old(self).dev_cards@[k].state == DevCardState::CanPlay,
        ensures
            ({
                let at = first_playable(old(self).dev_cards@, *used_dev_card, 0);
                &&& 0 <= at < old(self).dev_cards@.len()
                &&& final(self).dev_cards@ == old(self).dev_cards@.update(
                    at,
                    DevCardInHand { card: *used_dev_card, state: DevCardState::AlreadyPlayed },
                )
            }),
            *final(self) == (Player {
                dev_cards: final(self).dev_cards,
                has_played_dev_card: true,
                ..*old(self)
            }),
    {
        let n = self.dev_cards.len();
        let mut i: usize = 0;
        loop
            invariant
                n == self.dev_cards@.len(),
                0 <= i <= n,
                *self == *old(self),
                first_playable(old(self).dev_cards@, *used_dev_card, 0) == first_playable(
                    old(self).dev_cards@,
                    *used_dev_card,
                    i as int,
                ),
                exists|k: int|
                    i <= k < n && (#[trigger] old(self).dev_cards@[k]).card == *used_dev_card
                        && old(self).dev_cards@[k].state == DevCardState::CanPlay,
            decreases n - i,
        {
            let c = self.dev_cards[i];
            if c.card == *used_dev_card && matches!(c.state, DevCardState::CanPlay) {
                self.dev_cards.set(
                    i,
                    DevCardInHand { card: c.card, state: DevCardState::AlreadyPlayed },
                );
                self.has_played_dev_card = true;
                proof {
                    assert(first_playable(old(self).dev_cards@, *used_dev_card, i as int)
                        == i as int);
                }
                return ;
            }
            i += 1;
            proof {
                let ghost w = choose|k: int|
                    i - 1 <= k < n && (#[trigger] old(self).dev_cards@[k]).card == *used_dev_card
                        && old(self).dev_cards@[k].state == DevCardState::CanPlay;
                assert(w >= i);
            }
        }
    }

    /// Records a city on a junction the player already holds.
    pub fn push_city(&mut self, junction: &Junction)
        ensures
            forall|q: Index| #[trigger] final(self).cities@.contains(q) <==> old(
                self,
            ).cities@.contains(q) || q == junction.index,
            old(self).cities@.no_duplicates() ==> final(self).cities@.no_duplicates(),
            *final(self) == (Player { cities: final(self).cities, ..*old(self) }),
    {
        crate::index::index_vec_insert(&mut self.cities, junction.index);
    }

    /// Adds a newly bought development card to the hand.
    pub fn push_dev_card(&mut self, dev_card: DevCard)
        ensures
            final(self).dev_cards@ == old(self).dev_cards@.push(DevCardInHand::new_spec(dev_card)),
            *final(self) == (Player { dev_cards: final(self).dev_cards, ..*old(self) }),
    {
        self.dev_cards.push(DevCardInHand::new(dev_card));
    }

    /// Records ownership of a road slot.
    pub fn push_road(&mut self, road: &Road)
        ensures
            forall|q: Index| #[trigger] final(self).roads@.contains(q) <==> old(
                self,
            ).roads@.contains(q) || q == road.index,
            old(self).roads@.no_duplicates() ==> final(self).roads@.no_duplicates(),
            !old(self).roads@.contains(road.index) ==> final(self).roads@ == old(
                self,
            ).roads@.push(road.index),
            old(self).roads@.contains(road.index) ==> final(self).roads@ == old(self).roads@,
            *final(self) == (Player { roads: final(self).roads, ..*old(self) }),
    {
        crate::index::index_vec_insert(&mut self.roads, road.index);
    }

    /// Records a settlement and improves the bank trade rates from the
    /// junction's port, if any.  Rates never regress.
    pub fn push_settlement(&mut self, junction: &Junction)
        ensures
            forall|q: Index| #[trigger] final(self).settlements@.contains(q) <==> old(
                self,
            ).settlements@.contains(q) || q == junction.index,
            old(self).settlements@.no_duplicates() ==> final(self).settlements@.no_duplicates(),
            forall|r: Resource| #[trigger] final(self).bank_trade_rates.cnt(r) == rate_after(
                junction.port,
                r,
                old(self).bank_trade_rates.cnt(r),
            ),
            *final(self) == (Player {
                settlements: final(self).settlements,
                bank_trade_rates: final(self).bank_trade_rates,
                ..*old(self)
            }),
    {
        crate::index::index_vec_insert(&mut self.settlements, junction.index);
        let mut rates = self.bank_trade_rates;
        match junction.port {
            Some(Port::Only(specialty)) => {
                rates = rates.with(specialty, SPECIALTY_PORT_BANK_TRADE_RATE);
            },
            Some(Port::Any) => {
                rates = ResourceCounts {
                    brick: if rates.brick < GENERIC_PORT_BANK_TRADE_RATE {
                        rates.brick
                    } else {
                        GENERIC_PORT_BANK_TRADE_RATE
                    },
                    ore: if rates.ore < GENERIC_PORT_BANK_TRADE_RATE {
                        rates.ore
                    } else {
                        GENERIC_PORT_BANK_TRADE_RATE
                    },
                    sheep: if rates.sheep < GENERIC_PORT_BANK_TRADE_RATE {
                        rates.sheep
                    } else {
                        GENERIC_PORT_BANK_TRADE_RATE
                    },
                    wheat: if rates.wheat < GENERIC_PORT_BANK_TRADE_RATE {
                        rates.wheat
                    } else {
                        GENERIC_PORT_BANK_TRADE_RATE
                    },
                    wood: if rates.wood < GENERIC_PORT_BANK_TRADE_RATE {
                        rates.wood
                    } else {
                        GENERIC_PORT_BANK_TRADE_RATE
                    },
                };
            },
            None => {},
        }
        self.bank_trade_rates = rates;
    }

    /// The player's longest qualifying road chain on this board.
    pub fn longest_road(&self, board: &crate::board::Board) -> (n: usize)
        requires
            self.roads@.no_duplicates(),
        ensures
            n == crate::longest_road::lr_best(*board, self.id, self.roads@, 0),
            self.roads@.len() == 0 ==> n == 0,
            self.roads@.len() == 1 ==> n == 1,
    {
        board.longest_road(self.id, &self.roads)
    }
}

} // verus!
