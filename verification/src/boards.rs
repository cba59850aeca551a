use vstd::prelude::*;

use crate::board::Board;
use crate::board::BoardType;
use crate::board::Node;
use crate::board::Nodes;
use crate::board::node_index;
use crate::dev_card::DevCard;
use crate::hex::Hex;
use crate::hex::HexResource;
use crate::hex::HexType;
use crate::index::Index;
use crate::junction::Junction;
use crate::port::Port;
use crate::resource::Resource;
use crate::resource::ResourceCounts;
use crate::rng::shuffle_vec;
use crate::rng::pick_index;
use crate::road::Road;
use crate::road::RoadOrientation;

verus! {

/// Cost of a city: 3 ore and 2 wheat.
pub open spec fn spec_city_cost(board_type: BoardType) -> ResourceCounts {
    match board_type {
        BoardType::Standard => ResourceCounts { brick: 0, ore: 3, sheep: 0, wheat: 2, wood: 0 },
    }
}

/// Cost of a development card: 1 ore, 1 sheep and 1 wheat.
pub open spec fn spec_dev_card_cost(board_type: BoardType) -> ResourceCounts {
    match board_type {
        BoardType::Standard => ResourceCounts { brick: 0, ore: 1, sheep: 1, wheat: 1, wood: 0 },
    }
}

/// Cost of a road: 1 brick and 1 wood.
pub open spec fn spec_road_cost(board_type: BoardType) -> ResourceCounts {
    match board_type {
        BoardType::Standard => ResourceCounts { brick: 1, ore: 0, sheep: 0, wheat: 0, wood: 1 },
    }
}

/// Cost of a settlement: 1 brick, 1 sheep, 1 wheat and 1 wood.
pub open spec fn spec_settlement_cost(board_type: BoardType) -> ResourceCounts {
    match board_type {
        BoardType::Standard => ResourceCounts { brick: 1, ore: 0, sheep: 1, wheat: 1, wood: 1 },
    }
}

pub fn city_cost(board_type: BoardType) -> (out: ResourceCounts)
    ensures
        out == (ResourceCounts { brick: 0, ore: 3, sheep: 0, wheat: 2, wood: 0 }),
        out == spec_city_cost(board_type),
{
    match board_type {
        BoardType::Standard => ResourceCounts { brick: 0, ore: 3, sheep: 0, wheat: 2, wood: 0 },
    }
}

/// Cost of a development card: 1 ore, 1 sheep and 1 wheat.
pub fn dev_card_cost(board_type: BoardType) -> (out: ResourceCounts)
    ensures
        out == (ResourceCounts { brick: 0, ore: 1, sheep: 1, wheat: 1, wood: 0 }),
        out == spec_dev_card_cost(board_type),
{
    match board_type {
        BoardType::Standard => ResourceCounts { brick: 0, ore: 1, sheep: 1, wheat: 1, wood: 0 },
    }
}

/// Cost of a road: 1 brick and 1 wood.
pub fn road_cost(board_type: BoardType) -> (out: ResourceCounts)
    ensures
        out == (ResourceCounts { brick: 1, ore: 0, sheep: 0, wheat: 0, wood: 1 }),
        out == spec_road_cost(board_type),
{
    match board_type {
        BoardType::Standard => ResourceCounts { brick: 1, ore: 0, sheep: 0, wheat: 0, wood: 1 },
    }
}

/// Cost of a settlement: 1 brick, 1 sheep, 1 wheat and 1 wood.
pub fn settlement_cost(board_type: BoardType) -> (out: ResourceCounts)
    ensures
        out == (ResourceCounts { brick: 1, ore: 0, sheep: 1, wheat: 1, wood: 1 }),
        out == spec_settlement_cost(board_type),
{
    match board_type {
        BoardType::Standard => ResourceCounts { brick: 1, ore: 0, sheep: 1, wheat: 1, wood: 1 },
    }
}

pub fn max_cities(board_type: BoardType) -> (out: usize)
    ensures
        out == 4,
{
    match board_type {
        BoardType::Standard => 4,
    }
}

pub fn max_roads(board_type: BoardType) -> (out: usize)
    ensures
        out == 15,
{
    match board_type {
        BoardType::Standard => 15,
    }
}

/// Settlement stock, not counting those upgraded to cities.
pub fn max_settlements(board_type: BoardType) -> (out: usize)
    ensures
        out == 5,
{
    match board_type {
        BoardType::Standard => 5,
    }
}

/// The full development-card deck before shuffling: 14 knights, 2
/// monopolies, 2 road-buildings, 5 victory points and 2 years of plenty.
pub open spec fn standard_dev_deck() -> Seq<DevCard> {
    seq![
        DevCard::Knight,
        DevCard::Knight,
        DevCard::Knight,
        DevCard::Knight,
        DevCard::Knight,
        DevCard::Knight,
        DevCard::Knight,
        DevCard::Knight,
        DevCard::Knight,
        DevCard::Knight,
        DevCard::Knight,
        DevCard::Knight,
        DevCard::Knight,
        DevCard::Knight,
        DevCard::Monopoly,
        DevCard::Monopoly,
        DevCard::RoadBuilding,
        DevCard::RoadBuilding,
        DevCard::VictoryPoint,
        DevCard::VictoryPoint,
        DevCard::VictoryPoint,
        DevCard::VictoryPoint,
        DevCard::VictoryPoint,
        DevCard::YearOfPlenty,
        DevCard::YearOfPlenty,
    ]
}

/// The shuffled draw pile for a new match: a permutation of the
/// standard deck.
pub fn dev_cards(board_type: BoardType, rng: &mut rand::rngs::StdRng) -> (out: Vec<DevCard>)
    ensures
        out@.to_multiset() == standard_dev_deck().to_multiset(),
        out@.len() == 25,
{
    match board_type {
        BoardType::Standard => {
            let mut deck: Vec<DevCard> = vec![
                DevCard::Knight,
                DevCard::Knight,
                DevCard::Knight,
                DevCard::Knight,
                DevCard::Knight,
                DevCard::Knight,
                DevCard::Knight,
                DevCard::Knight,
                DevCard::Knight,
                DevCard::Knight,
                DevCard::Knight,
                DevCard::Knight,
                DevCard::Knight,
                DevCard::Knight,
                DevCard::Monopoly,
                DevCard::Monopoly,
                DevCard::RoadBuilding,
                DevCard::RoadBuilding,
                DevCard::VictoryPoint,
                DevCard::VictoryPoint,
                DevCard::VictoryPoint,
                DevCard::VictoryPoint,
                DevCard::VictoryPoint,
                DevCard::YearOfPlenty,
                DevCard::YearOfPlenty,
            ];
            proof {
                assert(deck@ =~= standard_dev_deck());
            }
            shuffle_vec(rng, &mut deck);
            deck
        }
    }
}


/// The coordinate held in a template pair.
pub open spec fn pair_index(t: (u16, u16)) -> Index {
    Index { x: t.0, y: t.1 }
}

/// The coordinate held in a junction-template triple.
pub open spec fn slot_index(t: (u16, u16, i32)) -> Index {
    Index { x: t.0, y: t.1 }
}

/// The fixed standard-board junction template: coordinate plus the
/// port-pile slot the junction draws from (-1 for no port; two coastal
/// junctions share each slot).
pub open spec fn std_junction_slots() -> Seq<(u16, u16, i32)> {
    seq![
        (1u16, 8u16, 0i32),
        (1u16, 12u16, 1i32),
        (1u16, 16u16, -1i32),
        (3u16, 6u16, 0i32),
        (3u16, 10u16, -1i32),
        (3u16, 14u16, 1i32),
        (3u16, 18u16, -1i32),
        (5u16, 6u16, -1i32),
        (5u16, 10u16, -1i32),
        (5u16, 14u16, -1i32),
        (5u16, 18u16, 2i32),
        (7u16, 4u16, 8i32),
        (7u16, 8u16, -1i32),
        (7u16, 12u16, -1i32),
        (7u16, 16u16, -1i32),
        (7u16, 20u16, 2i32),
        (9u16, 4u16, 8i32),
        (9u16, 8u16, -1i32),
        (9u16, 12u16, -1i32),
        (9u16, 16u16, -1i32),
        (9u16, 20u16, -1i32),
        (11u16, 2u16, -1i32),
        (11u16, 6u16, -1i32),
        (11u16, 10u16, -1i32),
        (11u16, 14u16, -1i32),
        (11u16, 18u16, -1i32),
        (11u16, 22u16, 3i32),
        (13u16, 2u16, -1i32),
        (13u16, 6u16, -1i32),
        (13u16, 10u16, -1i32),
        (13u16, 14u16, -1i32),
        (13u16, 18u16, -1i32),
        (13u16, 22u16, 3i32),
        (15u16, 4u16, 7i32),
        (15u16, 8u16, -1i32),
        (15u16, 12u16, -1i32),
        (15u16, 16u16, -1i32),
        (15u16, 20u16, -1i32),
        (17u16, 4u16, 7i32),
        (17u16, 8u16, -1i32),
        (17u16, 12u16, -1i32),
        (17u16, 16u16, -1i32),
        (17u16, 20u16, 4i32),
        (19u16, 6u16, -1i32),
        (19u16, 10u16, -1i32),
        (19u16, 14u16, -1i32),
        (19u16, 18u16, 4i32),
        (21u16, 6u16, 6i32),
        (21u16, 10u16, -1i32),
        (21u16, 14u16, 5i32),
        (21u16, 18u16, -1i32),
        (23u16, 8u16, 6i32),
        (23u16, 12u16, 5i32),
        (23u16, 16u16, -1i32),
    ]
}

/// The fixed standard-board road-slot template.
pub open spec fn std_road_slots() -> Seq<(u16, u16)> {
    seq![
        (2u16, 7u16),
        (2u16, 9u16),
        (2u16, 11u16),
        (2u16, 13u16),
        (2u16, 15u16),
        (2u16, 17u16),
        (4u16, 6u16),
        (4u16, 10u16),
        (4u16, 14u16),
        (4u16, 18u16),
        (6u16, 5u16),
        (6u16, 7u16),
        (6u16, 9u16),
        (6u16, 11u16),
        (6u16, 13u16),
        (6u16, 15u16),
        (6u16, 17u16),
        (6u16, 19u16),
        (8u16, 4u16),
        (8u16, 8u16),
        (8u16, 12u16),
        (8u16, 16u16),
        (8u16, 20u16),
        (10u16, 3u16),
        (10u16, 5u16),
        (10u16, 7u16),
        (10u16, 9u16),
        (10u16, 11u16),
        (10u16, 13u16),
        (10u16, 15u16),
        (10u16, 17u16),
        (10u16, 19u16),
        (10u16, 21u16),
        (12u16, 2u16),
        (12u16, 6u16),
        (12u16, 10u16),
        (12u16, 14u16),
        (12u16, 18u16),
        (12u16, 22u16),
        (14u16, 3u16),
        (14u16, 5u16),
        (14u16, 7u16),
        (14u16, 9u16),
        (14u16, 11u16),
        (14u16, 13u16),
        (14u16, 15u16),
        (14u16, 17u16),
        (14u16, 19u16),
        (14u16, 21u16),
        (16u16, 4u16),
        (16u16, 8u16),
        (16u16, 12u16),
        (16u16, 16u16),
        (16u16, 20u16),
        (18u16, 5u16),
        (18u16, 7u16),
        (18u16, 9u16),
        (18u16, 11u16),
        (18u16, 13u16),
        (18u16, 15u16),
        (18u16, 17u16),
        (18u16, 19u16),
        (20u16, 6u16),
        (20u16, 10u16),
        (20u16, 14u16),
        (20u16, 18u16),
        (22u16, 7u16),
        (22u16, 9u16),
        (22u16, 11u16),
        (22u16, 13u16),
        (22u16, 15u16),
        (22u16, 17u16),
    ]
}

/// The fixed standard-board hex template: the ocean ring first, then
/// the nineteen land cells.
pub open spec fn std_hex_slots() -> Seq<(u16, u16)> {
    seq![
        (0u16, 6u16),
        (0u16, 10u16),
        (0u16, 14u16),
        (0u16, 18u16),
        (4u16, 4u16),
        (4u16, 20u16),
        (8u16, 2u16),
        (8u16, 22u16),
        (12u16, 0u16),
        (12u16, 24u16),
        (16u16, 2u16),
        (16u16, 22u16),
        (20u16, 4u16),
        (20u16, 20u16),
        (24u16, 6u16),
        (24u16, 10u16),
        (24u16, 14u16),
        (24u16, 18u16),
        (4u16, 8u16),
        (4u16, 12u16),
        (4u16, 16u16),
        (8u16, 6u16),
        (8u16, 10u16),
        (8u16, 14u16),
        (8u16, 18u16),
        (12u16, 4u16),
        (12u16, 8u16),
        (12u16, 12u16),
        (12u16, 16u16),
        (12u16, 20u16),
        (16u16, 6u16),
        (16u16, 10u16),
        (16u16, 14u16),
        (16u16, 18u16),
        (20u16, 8u16),
        (20u16, 12u16),
        (20u16, 16u16),
    ]
}

/// The fixed port pile: four open ports and one per resource.
pub open spec fn std_ports() -> Seq<Port> {
    seq![
        Port::Any,
        Port::Any,
        Port::Any,
        Port::Any,
        Port::Only(Resource::Brick),
        Port::Only(Resource::Ore),
        Port::Only(Resource::Sheep),
        Port::Only(Resource::Wheat),
        Port::Only(Resource::Wood),
    ]
}

/// The fixed resource pile for the eighteen producing land cells.
pub open spec fn std_resources() -> Seq<Resource> {
    seq![
        Resource::Brick,
        Resource::Brick,
        Resource::Brick,
        Resource::Ore,
        Resource::Ore,
        Resource::Ore,
        Resource::Sheep,
        Resource::Sheep,
        Resource::Sheep,
        Resource::Sheep,
        Resource::Wheat,
        Resource::Wheat,
        Resource::Wheat,
        Resource::Wheat,
        Resource::Wood,
        Resource::Wood,
        Resource::Wood,
        Resource::Wood,
    ]
}

/// The fixed dice-trigger pile for the producing land cells.
pub open spec fn std_rolls() -> Seq<u8> {
    seq![2u8, 3, 3, 4, 4, 5, 5, 6, 6, 8, 8, 9, 9, 10, 10, 11, 11, 12]
}

/// The coordinate is one of the template's junction cells.
pub open spec fn std_is_junction(i: Index) -> bool {
    exists|k: int|
        0 <= k < std_junction_slots().len() && slot_index(#[trigger] std_junction_slots()[k]) == i
}

/// The coordinate is one of the template's road cells.
pub open spec fn std_is_road(i: Index) -> bool {
    exists|k: int| 0 <= k < std_road_slots().len() && pair_index(#[trigger] std_road_slots()[k]) == i
}

/// The coordinate is one of the template's hex cells.
pub open spec fn std_is_hex(i: Index) -> bool {
    exists|k: int| 0 <= k < std_hex_slots().len() && pair_index(#[trigger] std_hex_slots()[k]) == i
}

/// Membership of a coordinate among the first `n` template entries of
/// each kind, the shape the builder's loop invariants track.
pub open spec fn in_j_prefix(q: Index, n: int) -> bool {
    exists|k: int| 0 <= k < n && slot_index(#[trigger] std_junction_slots()[k]) == q
}

pub open spec fn in_r_prefix(q: Index, n: int) -> bool {
    exists|k: int| 0 <= k < n && pair_index(#[trigger] std_road_slots()[k]) == q
}

pub open spec fn in_h_prefix(q: Index, n: int) -> bool {
    exists|k: int| 0 <= k < n && pair_index(#[trigger] std_hex_slots()[k]) == q
}

/// The board's land cells carry one desert at draw position `d` and
/// otherwise pair the drawn resource pile `rs` with the drawn trigger
/// pile `rl`, both permutations of the fixed piles.
pub open spec fn std_land_filled(b: Board, rs: Seq<Resource>, rl: Seq<u8>, d: int) -> bool {
    &&& rs.len() == 18
    &&& rl.len() == 18
    &&& 0 <= d < 19
    &&& forall|k: int|
        18 <= k < 37 ==> b.hex_at(pair_index(#[trigger] std_hex_slots()[k])) == Some(
            Hex {
                index: pair_index(std_hex_slots()[k]),
                hex_type: if k - 18 == d {
                    HexType::Desert
                } else {
                    HexType::WithResource(
                        HexResource {
                            resource: rs[if k - 18 < d {
                                k - 18
                            } else {
                                k - 19
                            }],
                            roll: rl[if k - 18 < d {
                                k - 18
                            } else {
                                k - 19
                            }],
                        },
                    )
                },
            },
        )
}

/// Every junction cell of the template holds a fresh junction whose
/// port is drawn from the pile `pp` at its designated slot.
pub open spec fn std_junctions_filled(b: Board, pp: Seq<Port>) -> bool {
    &&& pp.len() == 9
    &&& forall|k: int|
        0 <= k < std_junction_slots().len() ==> b.junction_at(
            slot_index(#[trigger] std_junction_slots()[k]),
        ) == Some(
            Junction {
                index: slot_index(std_junction_slots()[k]),
                has_settlement: false,
                has_city: false,
                is_settleable: true,
                port: if std_junction_slots()[k].2 >= 0 {
                    Some(pp[std_junction_slots()[k].2 as int])
                } else {
                    None
                },
                owner: None,
            },
        )
}

/// The cell holds the desert.
pub open spec fn desert_at(b: Board, i: Index) -> bool {
    match b.hex_at(i) {
        Some(h) => h.hex_type == HexType::Desert,
        None => false,
    }
}

/// The whole template contract of a fresh standard board: the fixed
/// cell map, ocean ring, drawn junction ports, and drawn land
/// contents with a single desert.
pub open spec fn std_template(b: Board) -> bool {
    &&& forall|i: Index| (#[trigger] b.junction_at(i)) is Some <==> std_is_junction(i)
    &&& forall|i: Index| (#[trigger] b.road_at(i)) is Some <==> std_is_road(i)
    &&& forall|i: Index| (#[trigger] b.hex_at(i)) is Some <==> std_is_hex(i)
    &&& forall|k: int|
        0 <= k < 18 ==> b.hex_at(pair_index(#[trigger] std_hex_slots()[k])) == Some(
            Hex { index: pair_index(std_hex_slots()[k]), hex_type: HexType::Ocean },
        )
    &&& exists|pp: Seq<Port>|
        pp.to_multiset() == std_ports().to_multiset() && std_junctions_filled(b, pp)
    &&& exists|rs: Seq<Resource>, rl: Seq<u8>, d: int|
        rs.to_multiset() == std_resources().to_multiset() && rl.to_multiset()
            == std_rolls().to_multiset() && std_land_filled(b, rs, rl, d)
    &&& forall|i: Index, j: Index| desert_at(b, i) && desert_at(b, j) ==> i == j
}

/// Strict template order of two coordinates.
pub open spec fn pair_lt(a: (u16, u16), b: (u16, u16)) -> bool {
    a.0 < b.0 || (a.0 == b.0 && a.1 < b.1)
}

/// A template list sorted strictly by coordinate holds each
/// coordinate once.
proof fn lemma_sorted_pairs_chain(s: Seq<(u16, u16)>, a: int, c: int)
    requires
        forall|k: int| 0 <= k < s.len() - 1 ==> pair_lt(#[trigger] s[k], s[k + 1]),
        0 <= a < c < s.len(),
    ensures
        pair_lt(s[a], s[c]),
    decreases c - a,
{
    if a + 1 < c {
        lemma_sorted_pairs_chain(s, a, c - 1);
    }
}

proof fn lemma_sorted_pairs_distinct(s: Seq<(u16, u16)>)
    requires
        forall|k: int| 0 <= k < s.len() - 1 ==> pair_lt(#[trigger] s[k], s[k + 1]),
    ensures
        forall|a: int, c: int| 0 <= a < c < s.len() ==> pair_index(#[trigger] s[a]) != pair_index(
            #[trigger] s[c],
        ),
{
    assert forall|a: int, c: int|
        0 <= a < c < s.len() implies pair_index(#[trigger] s[a]) != pair_index(
        #[trigger] s[c],
    ) by {
        lemma_sorted_pairs_chain(s, a, c);
    };
}

proof fn lemma_sorted_slots_chain(s: Seq<(u16, u16, i32)>, a: int, c: int)
    requires
        forall|k: int|
            0 <= k < s.len() - 1 ==> pair_lt(
                ((#[trigger] s[k]).0, s[k].1),
                (s[k + 1].0, s[k + 1].1),
            ),
        0 <= a < c < s.len(),
    ensures
        pair_lt((s[a].0, s[a].1), (s[c].0, s[c].1)),
    decreases c - a,
{
    if a + 1 < c {
        lemma_sorted_slots_chain(s, a, c - 1);
    }
}

proof fn lemma_sorted_slots_distinct(s: Seq<(u16, u16, i32)>)
    requires
        forall|k: int|
            0 <= k < s.len() - 1 ==> pair_lt(
                ((#[trigger] s[k]).0, s[k].1),
                (s[k + 1].0, s[k + 1].1),
            ),
    ensures
        forall|a: int, c: int| 0 <= a < c < s.len() ==> slot_index(#[trigger] s[a]) != slot_index(
            #[trigger] s[c],
        ),
{
    assert forall|a: int, c: int|
        0 <= a < c < s.len() implies slot_index(#[trigger] s[a]) != slot_index(
        #[trigger] s[c],
    ) by {
        lemma_sorted_slots_chain(s, a, c);
    };
}

/// How a road at this coordinate is drawn./// How a road at this coordinate is drawn.  Roads inside a hex row are
/// vertical; the rows between junction rows alternate the two diagonal
/// glyphs with the row's parity.
fn road_orientation_of(idx: &Index) -> RoadOrientation {
    if idx.x % 4 == 0 {
        RoadOrientation::Pipe
    } else if idx.x % 8 == 2 {
        if idx.y % 4 == 3 {
            RoadOrientation::ForwardSlash
        } else {
            RoadOrientation::BackSlash
        }
    } else {
        if idx.y % 4 == 1 {
            RoadOrientation::ForwardSlash
        } else {
            RoadOrientation::BackSlash
        }
    }
}

impl Board {
    /// The junction at `i`, if any, is fresh: unowned, unbuilt, open
    /// for settling.
    pub open spec fn junction_fresh_at(self, i: Index) -> bool {
        match self.junction_at(i) {
            Some(j) => !j.has_settlement && !j.has_city && j.is_settleable && j.owner is None,
            None => true,
        }
    }

    /// All junctions on the board are fresh.
    pub open spec fn junctions_fresh(self) -> bool {
        forall|i: Index| #[trigger] self.junction_fresh_at(i)
    }

    /// The road at `i`, if any, is unowned.
    pub open spec fn road_unowned_at(self, i: Index) -> bool {
        match self.road_at(i) {
            Some(r) => r.owner is None,
            None => true,
        }
    }

    /// All roads on the board are unowned.
    pub open spec fn roads_unowned(self) -> bool {
        forall|i: Index| #[trigger] self.road_unowned_at(i)
    }

    /// Some cell of the board holds the desert hex.
    pub open spec fn has_desert(self) -> bool {
        exists|i: Index| (#[trigger] self.hex_at(i)) matches Some(h) && h.hex_type
            == HexType::Desert
    }

    /// The node is safe to place on a fresh board: a junction must be
    /// fresh, a road unowned.
    pub open spec fn placeable_fresh(n: Node) -> bool {
        match n {
            Node::Junction(j) => !j.has_settlement && !j.has_city && j.is_settleable && j.owner
                is None,
            Node::Road(r) => r.owner is None,
            Node::Hex(_) => true,
        }
    }

    /// Writes node `n` into the grid cell named by its own coordinate.
    fn place(&mut self, n: Node)
        requires
            (node_index(n).x as int) < old(self).nodes@.len(),
            (node_index(n).y as int) < old(self).nodes@[node_index(n).x as int]@.len(),
        ensures
            old(self).updated_at(*final(self), node_index(n), n),
            old(self).junctions_fresh() && Board::placeable_fresh(n)
                ==> final(self).junctions_fresh(),
            old(self).roads_unowned() && Board::placeable_fresh(n) ==> final(self).roads_unowned(),
    {
        let idx = match &n {
            Node::Hex(h) => h.index,
            Node::Junction(j) => j.index,
            Node::Road(r) => r.index,
        };
        let x = idx.x as usize;
        let y = idx.y as usize;
        let row = &mut self.nodes[x];
        row.set(y, Some(n));
        proof {
            assert forall|q: Index| q != idx implies #[trigger] final(self).node_at(q) == old(
                self,
            ).node_at(q) by {
                if q.x == idx.x {
                    assert(q.y != idx.y);
                }
            };
            if old(self).junctions_fresh() && Board::placeable_fresh(n) {
                assert forall|q: Index| #[trigger] final(self).junction_fresh_at(q) by {
                    if q != idx {
                        assert(final(self).node_at(q) == old(self).node_at(q));
                        assert(old(self).junction_fresh_at(q));
                    }
                };
            }
            if old(self).roads_unowned() && Board::placeable_fresh(n) {
                assert forall|q: Index| #[trigger] final(self).road_unowned_at(q) by {
                    if q != idx {
                        assert(final(self).node_at(q) == old(self).node_at(q));
                        assert(old(self).road_unowned_at(q));
                    }
                };
            }
        }
    }
}

/// The grid of a fresh standard board: a fixed coordinate template, with
/// the hex contents, ports and the development deck drawn from shuffled
/// piles.  Exactly one cell holds the desert; every junction starts
/// settleable and unowned; every road starts unowned.
pub fn nodes(rng: &mut rand::rngs::StdRng) -> (out: Nodes)
    ensures
        ({
            let b = Board { board_type: BoardType::Standard, nodes: out };
            &&& b.nodes_indexed()
            &&& b.grid_bounded()
            &&& b.junctions_fresh()
            &&& b.roads_unowned()
            &&& b.has_desert()
            &&& b.nodes@.len() == 25
            &&& forall|x: int| 0 <= x < 25 ==> (#[trigger] b.nodes@[x])@.len() == 25
            &&& std_template(b)
        }),
{
    let b = build_standard(rng);
    b.nodes
}

/// The structural facts of the template lists: in-grid bounds, the
/// coordinate parities that keep the three kinds apart, and strict
/// ordering (hence distinctness) within each list.
#[verifier::rlimit(100)]
#[verifier::spinoff_prover]
proof fn lemma_template_facts()
    ensures
        forall|k: int|
            0 <= k < std_junction_slots().len() ==> (#[trigger] std_junction_slots()[k]).0 < 25
                && std_junction_slots()[k].1 < 25 && -1 <= std_junction_slots()[k].2 < 9
                && std_junction_slots()[k].0 % 2 == 1,
        forall|k: int|
            0 <= k < std_road_slots().len() ==> (#[trigger] std_road_slots()[k]).0 < 25
                && std_road_slots()[k].1 < 25 && std_road_slots()[k].0 % 2 == 0 && (
            std_road_slots()[k].0 % 4 == 2 ==> std_road_slots()[k].1 % 2 == 1) && (
            std_road_slots()[k].0 % 8 == 4 ==> std_road_slots()[k].1 % 4 == 2) && (
            std_road_slots()[k].0 % 8 == 0 ==> std_road_slots()[k].1 % 4 == 0),
        forall|k: int|
            0 <= k < std_hex_slots().len() ==> (#[trigger] std_hex_slots()[k]).0 < 25
                && std_hex_slots()[k].1 < 25 && std_hex_slots()[k].0 % 4 == 0 && (
            std_hex_slots()[k].0 % 8 == 4 ==> std_hex_slots()[k].1 % 4 == 0) && (
            std_hex_slots()[k].0 % 8 == 0 ==> std_hex_slots()[k].1 % 4 == 2),
        forall|a: int, c: int|
            0 <= a < c < std_junction_slots().len() ==> slot_index(
                #[trigger] std_junction_slots()[a],
            ) != slot_index(#[trigger] std_junction_slots()[c]),
        forall|a: int, c: int|
            0 <= a < c < std_road_slots().len() ==> pair_index(#[trigger] std_road_slots()[a])
                != pair_index(#[trigger] std_road_slots()[c]),
        forall|a: int, c: int|
            0 <= a < c < std_hex_slots().len() ==> pair_index(#[trigger] std_hex_slots()[a])
                != pair_index(#[trigger] std_hex_slots()[c]),
{
        // the template lists are strictly ordered, bounded, and obey
        // the coordinate parities that keep the three kinds apart
        assert(forall|k: int|
            0 <= k < std_junction_slots().len() ==> (#[trigger] std_junction_slots()[k]).0 < 25
                && std_junction_slots()[k].1 < 25 && -1 <= std_junction_slots()[k].2 < 9
                && std_junction_slots()[k].0 % 2 == 1);
        assert(forall|k: int|
            0 <= k < std_road_slots().len() ==> (#[trigger] std_road_slots()[k]).0 < 25
                && std_road_slots()[k].1 < 25 && std_road_slots()[k].0 % 2 == 0 && (
            std_road_slots()[k].0 % 4 == 2 ==> std_road_slots()[k].1 % 2 == 1) && (
            std_road_slots()[k].0 % 8 == 4 ==> std_road_slots()[k].1 % 4 == 2) && (
            std_road_slots()[k].0 % 8 == 0 ==> std_road_slots()[k].1 % 4 == 0));
        assert(forall|k: int|
            0 <= k < std_hex_slots().len() ==> (#[trigger] std_hex_slots()[k]).0 < 25
                && std_hex_slots()[k].1 < 25 && std_hex_slots()[k].0 % 4 == 0 && (
            std_hex_slots()[k].0 % 8 == 4 ==> std_hex_slots()[k].1 % 4 == 0) && (
            std_hex_slots()[k].0 % 8 == 0 ==> std_hex_slots()[k].1 % 4 == 2));
        assert(forall|k: int|
            0 <= k < std_junction_slots().len() - 1 ==> pair_lt(
                ((#[trigger] std_junction_slots()[k]).0, std_junction_slots()[k].1),
                (std_junction_slots()[k + 1].0, std_junction_slots()[k + 1].1),
            ));
        assert(forall|k: int|
            0 <= k < std_road_slots().len() - 1 ==> pair_lt(
                #[trigger] std_road_slots()[k],
                std_road_slots()[k + 1],
            ));
        lemma_sorted_slots_distinct(std_junction_slots());
        lemma_sorted_pairs_distinct(std_road_slots());
        // the hex list is the sorted ocean ring followed by the sorted
        // land cells, with no coordinate shared between the two parts
        assert(forall|a: int, c: int|
            0 <= a < c < 18 ==> pair_index(#[trigger] std_hex_slots()[a]) != pair_index(
                #[trigger] std_hex_slots()[c],
            ));
        assert(forall|a: int, c: int|
            18 <= a < c < 37 ==> pair_index(#[trigger] std_hex_slots()[a]) != pair_index(
                #[trigger] std_hex_slots()[c],
            ));
        assert(forall|a: int, c: int|
            0 <= a < 18 <= c < 37 ==> pair_index(#[trigger] std_hex_slots()[a]) != pair_index(
                #[trigger] std_hex_slots()[c],
            ));
    }

/// Lays the template's junction cells onto an empty grid, drawing each
/// designated port from the shuffled pile.
#[verifier::loop_isolation(false)]
#[verifier::rlimit(100)]
#[verifier::spinoff_prover]
fn lay_junctions(b: &mut Board, ports: &Vec<Port>)
    requires
        old(b).board_type == BoardType::Standard,
        old(b).nodes@.len() == 25,
        forall|x: int| 0 <= x < 25 ==> (#[trigger] old(b).nodes@[x])@.len() == 25,
        forall|q: Index| (#[trigger] old(b).node_at(q)) is None,
        ports@.len() == 9,
    ensures
        final(b).board_type == BoardType::Standard,
        final(b).nodes@.len() == 25,
        forall|x: int| 0 <= x < 25 ==> (#[trigger] final(b).nodes@[x])@.len() == 25,
        final(b).nodes_indexed(),
        final(b).junctions_fresh(),
        final(b).roads_unowned(),
        forall|q: Index| (#[trigger] final(b).node_at(q)) is Some <==> in_j_prefix(
            q,
            std_junction_slots().len() as int,
        ),
        std_junctions_filled(*final(b), ports@),
{
    proof {
        lemma_template_facts();
        assert(old(b).nodes_indexed());
        assert(old(b).junctions_fresh());
        assert(old(b).roads_unowned());
    }
    let junction_slots: Vec<(u16, u16, i32)> = vec![
        (1, 8, 0),
        (1, 12, 1),
        (1, 16, -1),
        (3, 6, 0),
        (3, 10, -1),
        (3, 14, 1),
        (3, 18, -1),
        (5, 6, -1),
        (5, 10, -1),
        (5, 14, -1),
        (5, 18, 2),
        (7, 4, 8),
        (7, 8, -1),
        (7, 12, -1),
        (7, 16, -1),
        (7, 20, 2),
        (9, 4, 8),
        (9, 8, -1),
        (9, 12, -1),
        (9, 16, -1),
        (9, 20, -1),
        (11, 2, -1),
        (11, 6, -1),
        (11, 10, -1),
        (11, 14, -1),
        (11, 18, -1),
        (11, 22, 3),
        (13, 2, -1),
        (13, 6, -1),
        (13, 10, -1),
        (13, 14, -1),
        (13, 18, -1),
        (13, 22, 3),
        (15, 4, 7),
        (15, 8, -1),
        (15, 12, -1),
        (15, 16, -1),
        (15, 20, -1),
        (17, 4, 7),
        (17, 8, -1),
        (17, 12, -1),
        (17, 16, -1),
        (17, 20, 4),
        (19, 6, -1),
        (19, 10, -1),
        (19, 14, -1),
        (19, 18, 4),
        (21, 6, 6),
        (21, 10, -1),
        (21, 14, 5),
        (21, 18, -1),
        (23, 8, 6),
        (23, 12, 5),
        (23, 16, -1),
    ];
    proof {
        assert(junction_slots@ =~= std_junction_slots());
    }
    let mut i: usize = 0;
    while i < junction_slots.len()
        invariant
            b.board_type == BoardType::Standard,
            b.nodes@.len() == 25,
            forall|x: int| 0 <= x < 25 ==> (#[trigger] b.nodes@[x])@.len() == 25,
            ports@.len() == 9,
            b.nodes_indexed(),
            b.junctions_fresh(),
            b.roads_unowned(),
            i <= std_junction_slots().len(),
            forall|q: Index| (#[trigger] b.node_at(q)) is Some <==> in_j_prefix(q, i as int),
            forall|k: int|
                0 <= k < i ==> b.junction_at(slot_index(#[trigger] std_junction_slots()[k]))
                    == Some(
                    Junction {
                        index: slot_index(std_junction_slots()[k]),
                        has_settlement: false,
                        has_city: false,
                        is_settleable: true,
                        port: if std_junction_slots()[k].2 >= 0 {
                            Some(ports@[std_junction_slots()[k].2 as int])
                        } else {
                            None
                        },
                        owner: None,
                    },
                ),
        decreases junction_slots@.len() - i,
    {
        let (x, y, slot) = junction_slots[i];
        let port: Option<Port> = if slot >= 0 {
            Some(ports[slot as usize])
        } else {
            None
        };
        let ghost pre = *b;
        b.place(Node::Junction(Junction::new(Index::new(x, y), port)));
        proof {
            let ci = slot_index(std_junction_slots()[i as int]);
            assert forall|q: Index| (#[trigger] b.node_at(q)) is Some implies in_j_prefix(
                q,
                i + 1,
            ) by {
                if q != ci {
                    assert(b.node_at(q) == pre.node_at(q));
                    let k = choose|k: int|
                        0 <= k < i && slot_index(#[trigger] std_junction_slots()[k]) == q;
                    assert(0 <= k < i + 1 && slot_index(std_junction_slots()[k]) == q);
                }
            };
            assert forall|q: Index| in_j_prefix(q, i + 1) implies (#[trigger] b.node_at(
                q,
            )) is Some by {
                let k = choose|k: int|
                    0 <= k < i + 1 && slot_index(#[trigger] std_junction_slots()[k]) == q;
                if k < i {
                    assert(slot_index(std_junction_slots()[k]) != ci);
                    assert(b.node_at(q) == pre.node_at(q));
                    assert(in_j_prefix(q, i as int));
                }
            };
            assert forall|k: int|
                0 <= k < i + 1 implies b.junction_at(
                slot_index(#[trigger] std_junction_slots()[k]),
            ) == Some(
                Junction {
                    index: slot_index(std_junction_slots()[k]),
                    has_settlement: false,
                    has_city: false,
                    is_settleable: true,
                    port: if std_junction_slots()[k].2 >= 0 {
                        Some(ports@[std_junction_slots()[k].2 as int])
                    } else {
                        None
                    },
                    owner: None,
                },
            ) by {
                if k < i {
                    assert(slot_index(std_junction_slots()[k]) != ci);
                    assert(b.node_at(slot_index(std_junction_slots()[k])) == pre.node_at(
                        slot_index(std_junction_slots()[k]),
                    ));
                }
            };
        }
        i += 1;
    }

}

/// Lays the template's road cells, each fresh and unowned.
#[verifier::loop_isolation(false)]
#[verifier::rlimit(100)]
#[verifier::spinoff_prover]
fn lay_roads(b: &mut Board, ports: &Vec<Port>)
    requires
        old(b).board_type == BoardType::Standard,
        old(b).nodes@.len() == 25,
        forall|x: int| 0 <= x < 25 ==> (#[trigger] old(b).nodes@[x])@.len() == 25,
        old(b).nodes_indexed(),
        old(b).junctions_fresh(),
        old(b).roads_unowned(),
        ports@.len() == 9,
        forall|q: Index| (#[trigger] old(b).node_at(q)) is Some <==> in_j_prefix(
            q,
            std_junction_slots().len() as int,
        ),
        std_junctions_filled(*old(b), ports@),
    ensures
        final(b).board_type == BoardType::Standard,
        final(b).nodes@.len() == 25,
        forall|x: int| 0 <= x < 25 ==> (#[trigger] final(b).nodes@[x])@.len() == 25,
        final(b).nodes_indexed(),
        final(b).junctions_fresh(),
        final(b).roads_unowned(),
        forall|q: Index| (#[trigger] final(b).node_at(q)) is Some <==> (in_j_prefix(
            q,
            std_junction_slots().len() as int,
        ) || in_r_prefix(q, std_road_slots().len() as int)),
        std_junctions_filled(*final(b), ports@),
        forall|k: int|
            0 <= k < std_road_slots().len() ==> final(b).road_at(
                pair_index(#[trigger] std_road_slots()[k]),
            ) is Some,
{
    proof {
        lemma_template_facts();
    }
    let road_slots: Vec<(u16, u16)> = vec![
        (2, 7),
        (2, 9),
        (2, 11),
        (2, 13),
        (2, 15),
        (2, 17),
        (4, 6),
        (4, 10),
        (4, 14),
        (4, 18),
        (6, 5),
        (6, 7),
        (6, 9),
        (6, 11),
        (6, 13),
        (6, 15),
        (6, 17),
        (6, 19),
        (8, 4),
        (8, 8),
        (8, 12),
        (8, 16),
        (8, 20),
        (10, 3),
        (10, 5),
        (10, 7),
        (10, 9),
        (10, 11),
        (10, 13),
        (10, 15),
        (10, 17),
        (10, 19),
        (10, 21),
        (12, 2),
        (12, 6),
        (12, 10),
        (12, 14),
        (12, 18),
        (12, 22),
        (14, 3),
        (14, 5),
        (14, 7),
        (14, 9),
        (14, 11),
        (14, 13),
        (14, 15),
        (14, 17),
        (14, 19),
        (14, 21),
        (16, 4),
        (16, 8),
        (16, 12),
        (16, 16),
        (16, 20),
        (18, 5),
        (18, 7),
        (18, 9),
        (18, 11),
        (18, 13),
        (18, 15),
        (18, 17),
        (18, 19),
        (20, 6),
        (20, 10),
        (20, 14),
        (20, 18),
        (22, 7),
        (22, 9),
        (22, 11),
        (22, 13),
        (22, 15),
        (22, 17),
    ];
    proof {
        assert(road_slots@ =~= std_road_slots());
    }
    let mut i: usize = 0;
    while i < road_slots.len()
        invariant
            b.board_type == BoardType::Standard,
            b.nodes@.len() == 25,
            forall|x: int| 0 <= x < 25 ==> (#[trigger] b.nodes@[x])@.len() == 25,
            ports@.len() == 9,
            b.nodes_indexed(),
            b.junctions_fresh(),
            b.roads_unowned(),
            i <= std_road_slots().len(),
            forall|q: Index| (#[trigger] b.node_at(q)) is Some <==> (in_j_prefix(
                q,
                std_junction_slots().len() as int,
            ) || in_r_prefix(q, i as int)),
            std_junctions_filled(*b, ports@),
            forall|k: int|
                0 <= k < i ==> b.road_at(pair_index(#[trigger] std_road_slots()[k])) is Some,
        decreases road_slots@.len() - i,
    {
        let (x, y) = road_slots[i];
        let idx = Index::new(x, y);
        let orientation = road_orientation_of(&idx);
        let ghost pre = *b;
        b.place(Node::Road(Road::new(idx, orientation)));
        proof {
            let ci = pair_index(std_road_slots()[i as int]);
            assert forall|q: Index| (#[trigger] b.node_at(q)) is Some implies (in_j_prefix(
                q,
                std_junction_slots().len() as int,
            ) || in_r_prefix(q, i + 1)) by {
                if q != ci {
                    assert(b.node_at(q) == pre.node_at(q));
                    if in_r_prefix(q, i as int) {
                        let k = choose|k: int|
                            0 <= k < i && pair_index(#[trigger] std_road_slots()[k]) == q;
                        assert(0 <= k < i + 1 && pair_index(std_road_slots()[k]) == q);
                    }
                }
            };
            assert forall|q: Index| (in_j_prefix(q, std_junction_slots().len() as int)
                || in_r_prefix(q, i + 1)) implies (#[trigger] b.node_at(q)) is Some by {
                if in_j_prefix(q, std_junction_slots().len() as int) {
                    let k = choose|k: int|
                        0 <= k < std_junction_slots().len() && slot_index(
                            #[trigger] std_junction_slots()[k],
                        ) == q;
                    assert(q.x % 2 == 1 && ci.x % 2 == 0);
                    assert(b.node_at(q) == pre.node_at(q));
                } else {
                    let k = choose|k: int|
                        0 <= k < i + 1 && pair_index(#[trigger] std_road_slots()[k]) == q;
                    if k < i {
                        assert(pair_index(std_road_slots()[k]) != ci);
                        assert(b.node_at(q) == pre.node_at(q));
                        assert(in_r_prefix(q, i as int));
                    }
                }
            };
            assert forall|k: int|
                0 <= k < std_junction_slots().len() implies b.junction_at(
                slot_index(#[trigger] std_junction_slots()[k]),
            ) == pre.junction_at(slot_index(std_junction_slots()[k])) by {
                assert(slot_index(std_junction_slots()[k]).x % 2 == 1 && ci.x % 2 == 0);
                assert(b.node_at(slot_index(std_junction_slots()[k])) == pre.node_at(
                    slot_index(std_junction_slots()[k]),
                ));
            };
            assert forall|k: int|
                0 <= k < i + 1 implies b.road_at(
                pair_index(#[trigger] std_road_slots()[k]),
            ) is Some by {
                if k < i {
                    assert(pair_index(std_road_slots()[k]) != ci);
                    assert(b.node_at(pair_index(std_road_slots()[k])) == pre.node_at(
                        pair_index(std_road_slots()[k]),
                    ));
                }
            };
        }
        i += 1;
    }

}

/// Lays the hex cells: the ocean ring, then the land cells with the
/// drawn desert position and the shuffled resource/trigger pairing.
#[verifier::loop_isolation(false)]
#[verifier::rlimit(100)]
#[verifier::spinoff_prover]
fn lay_hexes(
    b: &mut Board,
    ports: &Vec<Port>,
    resources: &Vec<Resource>,
    rolls: &Vec<u8>,
    desert_pos: usize,
)
    requires
        old(b).board_type == BoardType::Standard,
        old(b).nodes@.len() == 25,
        forall|x: int| 0 <= x < 25 ==> (#[trigger] old(b).nodes@[x])@.len() == 25,
        old(b).nodes_indexed(),
        old(b).junctions_fresh(),
        old(b).roads_unowned(),
        ports@.len() == 9,
        resources@.len() == 18,
        rolls@.len() == 18,
        desert_pos < 19,
        forall|q: Index| (#[trigger] old(b).node_at(q)) is Some <==> (in_j_prefix(
            q,
            std_junction_slots().len() as int,
        ) || in_r_prefix(q, std_road_slots().len() as int)),
        std_junctions_filled(*old(b), ports@),
        forall|k: int|
            0 <= k < std_road_slots().len() ==> old(b).road_at(
                pair_index(#[trigger] std_road_slots()[k]),
            ) is Some,
    ensures
        final(b).board_type == BoardType::Standard,
        final(b).nodes@.len() == 25,
        forall|x: int| 0 <= x < 25 ==> (#[trigger] final(b).nodes@[x])@.len() == 25,
        final(b).nodes_indexed(),
        final(b).junctions_fresh(),
        final(b).roads_unowned(),
        forall|q: Index| (#[trigger] final(b).node_at(q)) is Some <==> (in_j_prefix(
            q,
            std_junction_slots().len() as int,
        ) || in_r_prefix(q, std_road_slots().len() as int) || in_h_prefix(
            q,
            std_hex_slots().len() as int,
        )),
        std_junctions_filled(*final(b), ports@),
        forall|k: int|
            0 <= k < std_road_slots().len() ==> final(b).road_at(
                pair_index(#[trigger] std_road_slots()[k]),
            ) is Some,
        forall|k: int|
            0 <= k < 18 ==> final(b).hex_at(pair_index(#[trigger] std_hex_slots()[k])) == Some(
                Hex { index: pair_index(std_hex_slots()[k]), hex_type: HexType::Ocean },
            ),
        std_land_filled(*final(b), resources@, rolls@, desert_pos as int),
{
    proof {
        lemma_template_facts();
    }
    let hex_slots: Vec<(u16, u16)> = vec![
        (0, 6),
        (0, 10),
        (0, 14),
        (0, 18),
        (4, 4),
        (4, 20),
        (8, 2),
        (8, 22),
        (12, 0),
        (12, 24),
        (16, 2),
        (16, 22),
        (20, 4),
        (20, 20),
        (24, 6),
        (24, 10),
        (24, 14),
        (24, 18),
        (4, 8),
        (4, 12),
        (4, 16),
        (8, 6),
        (8, 10),
        (8, 14),
        (8, 18),
        (12, 4),
        (12, 8),
        (12, 12),
        (12, 16),
        (12, 20),
        (16, 6),
        (16, 10),
        (16, 14),
        (16, 18),
        (20, 8),
        (20, 12),
        (20, 16),
    ];
    proof {
        assert(hex_slots@ =~= std_hex_slots());
    }
    let mut i: usize = 0;
    while i < hex_slots.len()
        invariant
            b.board_type == BoardType::Standard,
            b.nodes@.len() == 25,
            forall|x: int| 0 <= x < 25 ==> (#[trigger] b.nodes@[x])@.len() == 25,
            ports@.len() == 9,
            resources@.len() == 18,
            rolls@.len() == 18,
            desert_pos < 19,
            b.nodes_indexed(),
            b.junctions_fresh(),
            b.roads_unowned(),
            i <= std_hex_slots().len(),
            forall|q: Index| (#[trigger] b.node_at(q)) is Some <==> (in_j_prefix(
                q,
                std_junction_slots().len() as int,
            ) || in_r_prefix(q, std_road_slots().len() as int) || in_h_prefix(q, i as int)),
            std_junctions_filled(*b, ports@),
            forall|k: int|
                0 <= k < std_road_slots().len() ==> b.road_at(
                    pair_index(#[trigger] std_road_slots()[k]),
                ) is Some,
            forall|k: int|
                0 <= k < i && k < 18 ==> b.hex_at(pair_index(#[trigger] std_hex_slots()[k]))
                    == Some(
                    Hex { index: pair_index(std_hex_slots()[k]), hex_type: HexType::Ocean },
                ),
            forall|k: int|
                18 <= k < i ==> b.hex_at(pair_index(#[trigger] std_hex_slots()[k])) == Some(
                    Hex {
                        index: pair_index(std_hex_slots()[k]),
                        hex_type: if k - 18 == desert_pos as int {
                            HexType::Desert
                        } else {
                            HexType::WithResource(
                                HexResource {
                                    resource: resources@[if k - 18 < desert_pos as int {
                                        k - 18
                                    } else {
                                        k - 19
                                    }],
                                    roll: rolls@[if k - 18 < desert_pos as int {
                                        k - 18
                                    } else {
                                        k - 19
                                    }],
                                },
                            )
                        },
                    },
                ),
        decreases hex_slots@.len() - i,
    {
        let (x, y) = hex_slots[i];
        let idx = Index::new(x, y);
        let hex_type: HexType = if i < 18 {
            HexType::Ocean
        } else {
            let li = i - 18;
            if li == desert_pos {
                HexType::Desert
            } else {
                let j = if li < desert_pos {
                    li
                } else {
                    li - 1
                };
                HexType::WithResource(HexResource { resource: resources[j], roll: rolls[j] })
            }
        };
        let ghost pre = *b;
        b.place(Node::Hex(Hex::new(idx, hex_type)));
        proof {
            let ci = pair_index(std_hex_slots()[i as int]);
            assert forall|q: Index| (#[trigger] b.node_at(q)) is Some implies (in_j_prefix(
                q,
                std_junction_slots().len() as int,
            ) || in_r_prefix(q, std_road_slots().len() as int) || in_h_prefix(q, i + 1)) by {
                if q != ci {
                    assert(b.node_at(q) == pre.node_at(q));
                    if in_h_prefix(q, i as int) {
                        let k = choose|k: int|
                            0 <= k < i && pair_index(#[trigger] std_hex_slots()[k]) == q;
                        assert(0 <= k < i + 1 && pair_index(std_hex_slots()[k]) == q);
                    }
                }
            };
            assert forall|q: Index| (in_j_prefix(q, std_junction_slots().len() as int)
                || in_r_prefix(q, std_road_slots().len() as int) || in_h_prefix(
                q,
                i + 1,
            )) implies (#[trigger] b.node_at(q)) is Some by {
                if in_j_prefix(q, std_junction_slots().len() as int) {
                    let k = choose|k: int|
                        0 <= k < std_junction_slots().len() && slot_index(
                            #[trigger] std_junction_slots()[k],
                        ) == q;
                    assert(q.x % 2 == 1 && ci.x % 2 == 0);
                    assert(b.node_at(q) == pre.node_at(q));
                } else if in_r_prefix(q, std_road_slots().len() as int) {
                    let k = choose|k: int|
                        0 <= k < std_road_slots().len() && pair_index(
                            #[trigger] std_road_slots()[k],
                        ) == q;
                    assert(q != ci);
                    assert(b.node_at(q) == pre.node_at(q));
                } else {
                    let k = choose|k: int|
                        0 <= k < i + 1 && pair_index(#[trigger] std_hex_slots()[k]) == q;
                    if k < i {
                        assert(pair_index(std_hex_slots()[k]) != ci);
                        assert(b.node_at(q) == pre.node_at(q));
                        assert(in_h_prefix(q, i as int));
                    }
                }
            };
            assert forall|k: int|
                0 <= k < std_junction_slots().len() implies b.junction_at(
                slot_index(#[trigger] std_junction_slots()[k]),
            ) == pre.junction_at(slot_index(std_junction_slots()[k])) by {
                assert(slot_index(std_junction_slots()[k]).x % 2 == 1 && ci.x % 2 == 0);
                assert(b.node_at(slot_index(std_junction_slots()[k])) == pre.node_at(
                    slot_index(std_junction_slots()[k]),
                ));
            };
            assert forall|k: int|
                0 <= k < std_road_slots().len() implies b.road_at(
                pair_index(#[trigger] std_road_slots()[k]),
            ) == pre.road_at(pair_index(std_road_slots()[k])) by {
                assert(pair_index(std_road_slots()[k]) != ci);
                assert(b.node_at(pair_index(std_road_slots()[k])) == pre.node_at(
                    pair_index(std_road_slots()[k]),
                ));
            };
            assert forall|k: int|
                0 <= k < i && k < 18 implies b.hex_at(
                pair_index(#[trigger] std_hex_slots()[k]),
            ) == pre.hex_at(pair_index(std_hex_slots()[k])) by {
                assert(pair_index(std_hex_slots()[k]) != ci);
                assert(b.node_at(pair_index(std_hex_slots()[k])) == pre.node_at(
                    pair_index(std_hex_slots()[k]),
                ));
            };
            assert forall|k: int|
                18 <= k < i implies b.hex_at(pair_index(#[trigger] std_hex_slots()[k]))
                == pre.hex_at(pair_index(std_hex_slots()[k])) by {
                assert(pair_index(std_hex_slots()[k]) != ci);
                assert(b.node_at(pair_index(std_hex_slots()[k])) == pre.node_at(
                    pair_index(std_hex_slots()[k]),
                ));
            };
        }
        i += 1;
    }
}

/// One populated standard board: the fixed template laid out cell by
/// cell, with ports, land contents and the desert drawn from the
/// shuffled piles.
#[verifier::loop_isolation(false)]
#[verifier::rlimit(100)]
#[verifier::spinoff_prover]
fn build_standard(rng: &mut rand::rngs::StdRng) -> (b: Board)
    ensures
        b.board_type == BoardType::Standard,
        b.nodes_indexed(),
        b.grid_bounded(),
        b.junctions_fresh(),
        b.roads_unowned(),
        b.has_desert(),
        b.nodes@.len() == 25,
        forall|x: int| 0 <= x < 25 ==> (#[trigger] b.nodes@[x])@.len() == 25,
        std_template(b),
{
    let mut grid: Nodes = Vec::new();
    while grid.len() < 25
        invariant
            grid@.len() <= 25,
            forall|x: int| 0 <= x < grid@.len() ==> (#[trigger] grid@[x])@.len() == 25,
            forall|x: int, y: int|
                0 <= x < grid@.len() && 0 <= y < 25 ==> (#[trigger] grid@[x]@[y]) is None,
        decreases 25 - grid.len(),
    {
        let mut row: Vec<Option<Node>> = Vec::new();
        while row.len() < 25
            invariant
                row@.len() <= 25,
                forall|y: int| 0 <= y < row@.len() ==> (#[trigger] row@[y]) is None,
            decreases 25 - row.len(),
        {
            row.push(None);
        }
        grid.push(row);
    }
    let mut b = Board { board_type: BoardType::Standard, nodes: grid };
    proof {
        lemma_template_facts();
        assert forall|idx: Index| (#[trigger] b.node_at(idx)) is None by {}
    }

    let mut ports: Vec<Port> = vec![
        Port::Any,
        Port::Any,
        Port::Any,
        Port::Any,
        Port::Only(Resource::Brick),
        Port::Only(Resource::Ore),
        Port::Only(Resource::Sheep),
        Port::Only(Resource::Wheat),
        Port::Only(Resource::Wood),
    ];
    proof {
        assert(ports@ =~= std_ports());
    }
    shuffle_vec(rng, &mut ports);
    let mut resources: Vec<Resource> = vec![
        Resource::Brick,
        Resource::Brick,
        Resource::Brick,
        Resource::Ore,
        Resource::Ore,
        Resource::Ore,
        Resource::Sheep,
        Resource::Sheep,
        Resource::Sheep,
        Resource::Sheep,
        Resource::Wheat,
        Resource::Wheat,
        Resource::Wheat,
        Resource::Wheat,
        Resource::Wood,
        Resource::Wood,
        Resource::Wood,
        Resource::Wood,
    ];
    proof {
        assert(resources@ =~= std_resources());
    }
    shuffle_vec(rng, &mut resources);
    let mut rolls: Vec<u8> = vec![2, 3, 3, 4, 4, 5, 5, 6, 6, 8, 8, 9, 9, 10, 10, 11, 11, 12];
    proof {
        assert(rolls@ =~= std_rolls());
    }
    shuffle_vec(rng, &mut rolls);
    let desert_pos = pick_index(rng, 19);

    lay_junctions(&mut b, &ports);
    lay_roads(&mut b, &ports);
    lay_hexes(&mut b, &ports, &resources, &rolls, desert_pos);

    proof {
        // the per-kind cell maps follow from the master map plus the
        // per-kind contents
        assert forall|q: Index| (#[trigger] b.junction_at(q)) is Some <==> std_is_junction(
            q,
        ) by {
            if (b.junction_at(q)) is Some {
                assert(b.node_at(q) is Some);
                if in_r_prefix(q, std_road_slots().len() as int) {
                    let k = choose|k: int|
                        0 <= k < std_road_slots().len() && pair_index(
                            #[trigger] std_road_slots()[k],
                        ) == q;
                    assert(b.road_at(q) is Some);
                    assert(false);
                } else if in_h_prefix(q, std_hex_slots().len() as int) {
                    let k = choose|k: int|
                        0 <= k < std_hex_slots().len() && pair_index(
                            #[trigger] std_hex_slots()[k],
                        ) == q;
                    assert(b.hex_at(q) is Some);
                    assert(false);
                }
            } else if std_is_junction(q) {
                let k = choose|k: int|
                    0 <= k < std_junction_slots().len() && slot_index(
                        #[trigger] std_junction_slots()[k],
                    ) == q;
            }
        };
        assert forall|q: Index| (#[trigger] b.road_at(q)) is Some <==> std_is_road(q) by {
            if (b.road_at(q)) is Some {
                assert(b.node_at(q) is Some);
                if in_j_prefix(q, std_junction_slots().len() as int) {
                    let k = choose|k: int|
                        0 <= k < std_junction_slots().len() && slot_index(
                            #[trigger] std_junction_slots()[k],
                        ) == q;
                    assert(b.junction_at(q) is Some);
                    assert(false);
                } else if in_h_prefix(q, std_hex_slots().len() as int) {
                    let k = choose|k: int|
                        0 <= k < std_hex_slots().len() && pair_index(
                            #[trigger] std_hex_slots()[k],
                        ) == q;
                    assert(b.hex_at(q) is Some);
                    assert(false);
                }
            } else if std_is_road(q) {
                let k = choose|k: int|
                    0 <= k < std_road_slots().len() && pair_index(
                        #[trigger] std_road_slots()[k],
                    ) == q;
            }
        };
        assert forall|q: Index| (#[trigger] b.hex_at(q)) is Some <==> std_is_hex(q) by {
            if (b.hex_at(q)) is Some {
                assert(b.node_at(q) is Some);
                if in_j_prefix(q, std_junction_slots().len() as int) {
                    let k = choose|k: int|
                        0 <= k < std_junction_slots().len() && slot_index(
                            #[trigger] std_junction_slots()[k],
                        ) == q;
                    assert(b.junction_at(q) is Some);
                    assert(false);
                } else if in_r_prefix(q, std_road_slots().len() as int) {
                    let k = choose|k: int|
                        0 <= k < std_road_slots().len() && pair_index(
                            #[trigger] std_road_slots()[k],
                        ) == q;
                    assert(b.road_at(q) is Some);
                    assert(false);
                }
            } else if std_is_hex(q) {
                let k = choose|k: int|
                    0 <= k < std_hex_slots().len() && pair_index(#[trigger] std_hex_slots()[k])
                        == q;
            }
        };
        assert(std_land_filled(b, resources@, rolls@, desert_pos as int));
        // the desert stands on exactly one cell
        let dcell = pair_index(std_hex_slots()[18 + desert_pos as int]);
        assert(desert_at(b, dcell));
        assert forall|q: Index| desert_at(b, q) implies q == dcell by {
            assert(b.hex_at(q) is Some);
            let k = choose|k: int|
                0 <= k < std_hex_slots().len() && pair_index(#[trigger] std_hex_slots()[k]) == q;
            if k < 18 {
                assert(b.hex_at(q) == Some(Hex { index: q, hex_type: HexType::Ocean }));
                assert(false);
            } else {
                if k - 18 != desert_pos as int {
                    assert(false);
                }
            }
        };
        assert(b.hex_at(dcell) matches Some(h) && h.hex_type == HexType::Desert);
        assert(std_template(b));
    }
    b
}

impl Board {
    /// A freshly populated board for one match.
    pub fn new(board_type: BoardType, rng: &mut rand::rngs::StdRng) -> (b: Board)
        ensures
            b.board_type == board_type,
            b.nodes_indexed(),
            b.grid_bounded(),
            b.junctions_fresh(),
            b.roads_unowned(),
            b.has_desert(),
            b.nodes@.len() == 25,
            forall|x: int| 0 <= x < 25 ==> (#[trigger] b.nodes@[x])@.len() == 25,
            std_template(b),
    {
        match board_type {
            BoardType::Standard => Board { board_type, nodes: nodes(rng) },
        }
    }
}

} // verus!
