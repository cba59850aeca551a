use vstd::prelude::*;

use crate::action::Error;
use crate::action::Payload;
use crate::action::Request;
use crate::action::Response;
use crate::board::hj_adjacent;
use crate::board::Node;
use crate::board::jr_adjacent;
use crate::catalog::junction_owner_at;
use crate::dev_card::DevCard;
use crate::catalog::non_sentinel_shape;
use crate::catalog::sentinel_legal;
use crate::game::Game;
use crate::game::peq;
use crate::game::clone_player;
use crate::index::Index;
use crate::junction::Junction;
use crate::longest_road::shift_index;
use crate::player::Player;
use crate::player::PlayerId;
use crate::player::PlayerState;
use crate::resource::Resource;
use crate::resource::ResourceCounts;
use crate::trade::Trade;
use crate::trade::TradeWith;

verus! {

broadcast use vstd::seq_lib::lemma_seq_contains_after_push;

/// Whether `t` lies on one of the six junction <-> road offsets from `o`.
pub(crate) fn is_jr_adjacent(o: &Index, t: &Index) -> (out: bool)
    ensures
        out == jr_adjacent(*o, *t),
{
    let mut found = false;
    if let Some(s) = shift_index(o, -1, 0) {
        if s == *t {
            found = true;
        }
    }
    if let Some(s) = shift_index(o, -1, 1) {
        if s == *t {
            found = true;
        }
    }
    if let Some(s) = shift_index(o, 1, 1) {
        if s == *t {
            found = true;
        }
    }
    if let Some(s) = shift_index(o, 1, 0) {
        if s == *t {
            found = true;
        }
    }
    if let Some(s) = shift_index(o, 1, -1) {
        if s == *t {
            found = true;
        }
    }
    if let Some(s) = shift_index(o, -1, -1) {
        if s == *t {
            found = true;
        }
    }
    found
}

impl Player {
    /// Whether some owned road touches junction `j`.
    #[verifier::loop_isolation(false)]
    fn has_road_at_junction(&self, j: &Index) -> (out: bool)
        ensures
            out == exists|o: Index| #[trigger] self.roads@.contains(o) && jr_adjacent(o, *j),
    {
        let mut i: usize = 0;
        while i < self.roads.len()
            invariant
                i <= self.roads@.len(),
                forall|k: int| 0 <= k < i ==> !jr_adjacent(#[trigger] self.roads@[k], *j),
            decreases self.roads@.len() - i,
        {
            if is_jr_adjacent(&self.roads[i], j) {
                proof {
                    assert(self.roads@.contains(self.roads@[i as int]));
                }
                return true;
            }
            i += 1;
        }
        proof {
            assert forall|o: Index|
                #[trigger] self.roads@.contains(o) implies !jr_adjacent(o, *j) by {
                let k = choose|k: int| 0 <= k < self.roads@.len() && self.roads@[k] == o;
                assert(!jr_adjacent(self.roads@[k], *j));
            };
        }
        false
    }
}

/// A junction at `t` is owned by somebody other than `me`.
pub open spec fn rival_owner_at(b: crate::board::Board, t: Index, me: PlayerId) -> bool {
    match junction_owner_at(b, t) {
        Some(q) => q != me,
        None => false,
    }
}

impl Game {
    /// Whether the named rival owns a junction adjacent to `hex`.
    #[verifier::loop_isolation(false)]
    fn rival_owns_adjacent(&self, hex: &Index, q: PlayerId) -> (out: bool)
        requires
            self.board.nodes_indexed(),
        ensures
            out == exists|t: Index|
                #[trigger] hj_adjacent(*hex, t) && junction_owner_at(self.board, t) == Some(q),
    {
        let js = self.board.junction_neighbors_of_hex(hex);
        let mut i: usize = 0;
        while i < js.len()
            invariant
                i <= js@.len(),
                forall|jv: crate::junction::Junction| #[trigger] js@.contains(jv) <==> (
                hj_adjacent(*hex, jv.index) && self.board.junction_at(jv.index) == Some(jv)),
                forall|k: int| 0 <= k < i ==> (#[trigger] js@[k]).owner != Some(q),
            decreases js@.len() - i,
        {
            if js[i].owner == Some(q) {
                proof {
                    assert(js@.contains(js@[i as int]));
                }
                return true;
            }
            i += 1;
        }
        proof {
            assert forall|t: Index|
                #[trigger] hj_adjacent(*hex, t) implies junction_owner_at(self.board, t) != Some(
                q,
            ) by {
                if junction_owner_at(self.board, t) == Some(q) {
                    let jv = self.board.junction_at(t).unwrap();
                    assert(jv.index == t);
                    assert(js@.contains(jv));
                    let k = choose|k: int| 0 <= k < js@.len() && js@[k] == jv;
                    assert(js@[k].owner != Some(q));
                }
            };
        }
        false
    }

    /// Whether any rival of `me` owns a junction adjacent to `hex`.
    #[verifier::loop_isolation(false)]
    fn any_rival_adjacent(&self, hex: &Index, me: PlayerId) -> (out: bool)
        requires
            self.board.nodes_indexed(),
        ensures
            out == exists|t: Index|
                #[trigger] hj_adjacent(*hex, t) && rival_owner_at(self.board, t, me),
    {
        let js = self.board.junction_neighbors_of_hex(hex);
        let mut i: usize = 0;
        while i < js.len()
            invariant
                i <= js@.len(),
                forall|jv: crate::junction::Junction| #[trigger] js@.contains(jv) <==> (
                hj_adjacent(*hex, jv.index) && self.board.junction_at(jv.index) == Some(jv)),
                forall|k: int|
                    0 <= k < i ==> ((#[trigger] js@[k]).owner is None || js@[k].owner == Some(me)),
            decreases js@.len() - i,
        {
            match js[i].owner {
                Some(q) => {
                    if !(q == me) {
                        proof {
                            assert(js@.contains(js@[i as int]));
                            assert(hj_adjacent(*hex, js@[i as int].index) && rival_owner_at(
                                self.board,
                                js@[i as int].index,
                                me,
                            ));
                        }
                        return true;
                    }
                },
                None => {},
            }
            i += 1;
        }
        proof {
            assert forall|t: Index|
                #[trigger] hj_adjacent(*hex, t) implies !rival_owner_at(self.board, t, me) by {
                if rival_owner_at(self.board, t, me) {
                    let jv = self.board.junction_at(t).unwrap();
                    assert(jv.index == t);
                    assert(js@.contains(jv));
                    let k = choose|k: int| 0 <= k < js@.len() && js@[k] == jv;
                    assert(js@[k].owner is None || js@[k].owner == Some(me));
                }
            };
        }
        false
    }

    /// Completed rounds of turns, as an executable value.
    pub(crate) fn round_num(&self) -> (out: u64)
        requires
            self.player_order@.len() >= 1,
        ensures
            out as int == self.round_number(),
    {
        self.turn_number / (self.player_order.len() as u64)
    }

    /// Whether the match is still in the first placement round.
    pub fn is_first_round(&self) -> (out: bool)
        requires
            self.player_order@.len() >= 1,
        ensures
            out == self.is_first_round_spec(),
    {
        self.round_num() == 0
    }

    /// Whether the match is in the second (snake) placement round.
    pub fn is_second_round(&self) -> (out: bool)
        requires
            self.player_order@.len() >= 1,
        ensures
            out == self.is_second_round_spec(),
    {
        self.round_num() == 1
    }

    /// Evaluates catalog membership for one requested action, with the
    /// two placeholder kinds matched by their position only.
    #[verifier::loop_isolation(false)]
    fn action_allowed(&self, i: usize, req: &Request) -> (out: bool)
        requires
            self.wf(),
            (i as int) < self.players@.len(),
        ensures
            out == sentinel_legal(*self, self.players@[i as int], *req),
    {
        if self.is_game_over().is_some() {
            return false;
        }
        let p = &self.players[i];
        let board = &self.board;
        match req {
            Request::Discard(_) => matches!(
                p.state,
                PlayerState::AfterRollingSeven | PlayerState::WaitForTurn,
            ) && p.num_to_discard > 0,
            Request::OfferTrade(_) => {
                let n = self.player_order.len() as u64;
                matches!(p.state, PlayerState::Root) && self.turn_number / n > 1 && self.has_rolled
                    && p.hand.count_total() > 0 && p.num_trades_offered_this_turn
                    < crate::player::MAX_TRADES_PER_TURN
            },
            _ => {
                match p.state {
                    PlayerState::AfterBuildingFreeSettlement => {
                        match req {
                            Request::BuildRoad(r) => {
                                let rr = p.reachable_roads(board);
                                crate::index::index_vec_contains(&rr, *r)
                            },
                            _ => false,
                        }
                    },
                    PlayerState::AfterRollingSeven => {
                        if p.num_to_discard > 0 {
                            false
                        } else if self.waiting_for_players_to_discard() {
                            false
                        } else {
                            match req {
                                Request::MoveRobber(h) => board.get_hex(h).is_some() && !(*h
                                    == self.robber_index),
                                _ => false,
                            }
                        }
                    },
                    PlayerState::ChooseInitialResources => {
                        match req {
                            Request::ChooseInitialResources(j) => crate::index::index_vec_contains(
                                &p.settlements,
                                *j,
                            ),
                            _ => false,
                        }
                    },
                    PlayerState::Root => {
                        let n = self.player_order.len() as u64;
                        let round = self.turn_number / n;
                        if round <= 1 {
                            match req {
                                Request::BuildSettlement(j) => match board.get_junction(j) {
                                    Some(jv) => jv.is_settleable,
                                    None => false,
                                },
                                _ => false,
                            }
                        } else if !self.has_rolled {
                            match req {
                                Request::RollDice(o) => match o {
                                    None => true,
                                    Some(v) => 2 <= *v && *v <= 12 && (*v != 7 || round > 4),
                                },
                                _ => self.play_dev_allowed(i, req),
                            }
                        } else {
                            match req {
                                Request::EndTurn => true,
                                Request::BuildCity(j) => p.can_afford(
                                    &crate::boards::city_cost(board.board_type),
                                ) && p.cities.len() < crate::boards::max_cities(board.board_type)
                                    && crate::index::index_vec_contains(&p.settlements, *j),
                                Request::BuyDevCard => p.can_afford(
                                    &crate::boards::dev_card_cost(board.board_type),
                                ) && self.dev_cards.len() > 0,
                                Request::BuildRoad(r) => {
                                    if p.can_afford(&crate::boards::road_cost(board.board_type))
                                        && p.roads.len() < crate::boards::max_roads(
                                        board.board_type,
                                    ) {
                                        let rr = p.reachable_roads(board);
                                        crate::index::index_vec_contains(&rr, *r)
                                    } else {
                                        false
                                    }
                                },
                                Request::BuildSettlement(j) => {
                                    proof {
                                        broadcast use vstd::seq_lib::seq_to_set_is_finite;

                                        p.cities@.unique_seq_to_set();
                                        p.settlements@.unique_seq_to_set();
                                        assert forall|x: Index|
                                            p.cities@.to_set().contains(x) implies p.settlements@
                                            .to_set().contains(x) by {
                                            let ci = choose|ci: int|
                                                0 <= ci < p.cities@.len() && p.cities@[ci] == x;
                                            assert(p.settlements@.contains(p.cities@[ci]));
                                        };
                                        vstd::set_lib::lemma_len_subset(
                                            p.cities@.to_set(),
                                            p.settlements@.to_set(),
                                        );
                                        assert(p.cities@.len() <= p.settlements@.len());
                                    }
                                    let settleable = match board.get_junction(j) {
                                        Some(jv) => jv.is_settleable,
                                        None => false,
                                    };
                                    p.can_afford(
                                        &crate::boards::settlement_cost(board.board_type),
                                    ) && p.settlements.len() - p.cities.len()
                                        < crate::boards::max_settlements(board.board_type)
                                        && settleable && p.has_road_at_junction(j)
                                },
                                _ => self.play_dev_allowed(i, req),
                            }
                        }
                    },
                    PlayerState::Stealing => {
                        match req {
                            Request::StealFrom(q) => !(*q == p.id) && self.rival_owns_adjacent(
                                &self.robber_index,
                                *q,
                            ),
                            _ => false,
                        }
                    },
                    PlayerState::WaitForTurn => {
                        if p.num_to_discard > 0 {
                            false
                        } else {
                            let can_respond = match &self.current_trade {
                                Some(t) => match &t.with {
                                    TradeWith::Players(ps) => !p.has_declined_trade && p.can_afford(
                                        &t.getting,
                                    ) && crate::game::id_vec_contains(ps, p.id),
                                    TradeWith::Bank => false,
                                },
                                None => false,
                            };
                            match req {
                                Request::AcceptTrade => can_respond,
                                Request::DeclineTrade => can_respond,
                                _ => false,
                            }
                        }
                    },
                    PlayerState::WaitForTradeResponses => matches!(req, Request::CancelTrade),
                }
            },
        }
    }

    /// Evaluates the development-card play rules for one request.
    #[verifier::loop_isolation(false)]
    fn play_dev_allowed(&self, i: usize, req: &Request) -> (out: bool)
        requires
            self.wf(),
            (i as int) < self.players@.len(),
        ensures
            out == crate::catalog::play_dev_legal(*self, self.players@[i as int], *req),
    {
        let p = &self.players[i];
        if p.has_played_dev_card {
            return false;
        }
        match req {
            Request::PlayKnight(h) => p.holds_playable(crate::dev_card::DevCard::Knight)
                && self.has_rolled && self.board.get_hex(h).is_some() && !(*h == self.robber_index),
            Request::PlayMonopoly(_) => p.holds_playable(crate::dev_card::DevCard::Monopoly)
                && self.has_rolled,
            Request::PlayRoadBuilding(r1, r2) => {
                if p.holds_playable(crate::dev_card::DevCard::RoadBuilding) && self.has_rolled {
                    let prs = p.doubly_reachable_roads(&self.board);
                    let mut k: usize = 0;
                    let ghost target = (*r1, *r2);
                    while k < prs.len()
                        invariant
                            k <= prs@.len(),
                            target == (*r1, *r2),
                            forall|w: int| 0 <= w < k ==> #[trigger] prs@[w] != target,
                        decreases prs@.len() - k,
                    {
                        let (a, b) = prs[k];
                        if a == *r1 && b == *r2 {
                            proof {
                                assert(prs@[k as int] == (*r1, *r2));
                                assert(prs@.contains((*r1, *r2)));
                            }
                            return true;
                        }
                        k += 1;
                    }
                    proof {
                        assert forall|w: int|
                            0 <= w < prs@.len() implies #[trigger] prs@[w] != target by {}
                        assert(!prs@.contains(target));
                    }
                    false
                } else {
                    false
                }
            },
            Request::PlayVictoryPoint => p.holds_playable(crate::dev_card::DevCard::VictoryPoint),
            Request::PlayYearOfPlenty(_, _) => p.holds_playable(
                crate::dev_card::DevCard::YearOfPlenty,
            ) && self.has_rolled,
            _ => false,
        }
    }
}

/// The per-player effect of opening or clearing a trade: the response
/// flags reset, and the offerer moves to the matching state.
pub open spec fn trade_rel(pre: Player, post: Player, cur: bool, to_none: bool) -> bool {
    peq(
        post,
        Player {
            state: if cur {
                if to_none {
                    PlayerState::Root
                } else {
                    PlayerState::WaitForTradeResponses
                }
            } else {
                pre.state
            },
            has_declined_trade: false,
            ..pre
        },
    )
}

/// How many cards of kind `r` the submitted discard list names, over
/// its first `n` entries.
pub open spec fn res_count(s: Seq<Resource>, r: Resource, n: int) -> int
    decreases n,
        when 0 <= n <= s.len()
{
    if n <= 0 {
        0
    } else {
        res_count(s, r, n - 1) + if s[n - 1] == r {
            1int
        } else {
            0int
        }
    }
}

impl Game {
    /// Opens or clears the in-flight trade: stores it, resets every
    /// response flag, and moves the current player to the matching
    /// state.
    #[verifier::loop_isolation(false)]
    fn set_trade(&mut self, t: Option<Trade>)
        requires
            old(self).current_player_index < old(self).player_order@.len(),
        ensures
            final(self).current_trade == t,
            final(self).players@.len() == old(self).players@.len(),
            forall|i: int|
                0 <= i < old(self).players@.len() ==> trade_rel(
                    old(self).players@[i],
                    #[trigger] final(self).players@[i],
                    old(self).players@[i].id == old(self).current_player_id(),
                    t is None,
                ),
            *final(self) == (Game {
                players: final(self).players,
                current_trade: t,
                ..*old(self)
            }),
    {
        let cur_id = self.player_order[self.current_player_index];
        let to_none = t.is_none();
        let ghost tg = t;
        self.current_trade = t;
        let m = self.players.len();
        let mut i: usize = 0;
        while i < m
            invariant
                m == self.players@.len(),
                i <= m,
                cur_id == old(self).current_player_id(),
                self.players@.len() == old(self).players@.len(),
                *self == (Game {
                    players: self.players,
                    current_trade: self.current_trade,
                    ..*old(self)
                }),
                self.current_trade == tg,
                to_none == (tg is None),
                forall|j: int|
                    0 <= j < i ==> trade_rel(
                        old(self).players@[j],
                        #[trigger] self.players@[j],
                        old(self).players@[j].id == cur_id,
                        to_none,
                    ),
                forall|j: int| i <= j < m ==> #[trigger] self.players@[j] == old(self).players@[j],
            decreases m - i,
        {
            let mut p = clone_player(&self.players[i]);
            p.has_declined_trade = false;
            if p.id == cur_id {
                p.state = if to_none {
                    PlayerState::Root
                } else {
                    PlayerState::WaitForTradeResponses
                };
            }
            self.players.set(i, p);
            i += 1;
        }
    }

    /// Lays a road for the player at list position `pi`, records it,
    /// and recomputes the longest-road award; reports the winner if
    /// the transfer ends the match.
    #[verifier::loop_isolation(false)]
    fn build_road_core(&mut self, pi: usize, road: Index) -> (w: Option<PlayerId>)
        requires
            (pi as int) < old(self).players@.len(),
            old(self).board.nodes_indexed(),
            old(self).board.road_at(road) is Some,
            forall|i: int, j: int|
                0 <= i < j < old(self).players@.len() ==> (#[trigger] old(self).players@[i]).id != (
                #[trigger] old(self).players@[j]).id,
            forall|i: int|
                0 <= i < old(self).players@.len() ==> (#[trigger] old(
                    self,
                ).players@[i]).roads@.no_duplicates() && old(
                    self,
                ).players@[i].victory_points.public <= 0x1000002 && old(
                    self,
                ).players@[i].victory_points.private <= 0x1000002 && old(
                    self,
                ).players@[i].victory_points.private >= old(
                    self,
                ).players@[i].victory_points.public,
            match old(self).has_longest_road {
                Some(h) => old(self).has_player(h) && old(self).spec_player(
                    h,
                ).victory_points.public >= 2,
                None => true,
            },
            forall|k: int|
                0 <= k < old(self).player_order@.len() ==> old(self).has_player(
                    #[trigger] old(self).player_order@[k],
                ),
        ensures
            final(self).players@.len() == old(self).players@.len(),
            final(self).player_order@ == old(self).player_order@,
            final(self).current_player_index == old(self).current_player_index,
            final(self).victory_points_goal == old(self).victory_points_goal,
            final(self).dev_cards@ == old(self).dev_cards@,
            final(self).robber_index == old(self).robber_index,
            final(self).turn_number == old(self).turn_number,
            final(self).has_rolled == old(self).has_rolled,
            final(self).current_trade == old(self).current_trade,
            final(self).has_largest_army == old(self).has_largest_army,
            final(self).board.board_type == old(self).board.board_type,
            final(self).board.nodes_indexed(),
            old(self).board.same_shape(final(self).board),
            forall|q: Index| q != road ==> #[trigger] final(self).board.node_at(q) == old(
                self,
            ).board.node_at(q),
            final(self).board.road_at(road) matches Some(rd) && rd.owner == Some(
                old(self).players@[pi as int].id,
            ) && rd.index == old(self).board.road_at(road).unwrap().index,
            forall|i: int|
                0 <= i < old(self).players@.len() ==> same_but_roads_and_vp(
                    old(self).players@[i],
                    #[trigger] final(self).players@[i],
                ),
            forall|i: int|
                0 <= i < old(self).players@.len() && i != pi as int
                    ==> (#[trigger] final(self).players@[i]).roads@ == old(self).players@[i].roads@,
            forall|q: Index| #[trigger] final(self).players@[pi as int].roads@.contains(q) <==> old(
                self,
            ).players@[pi as int].roads@.contains(q) || q == road,
            final(self).players@[pi as int].roads@.no_duplicates(),
            forall|i: int|
                0 <= i < old(self).players@.len() ==> vp_moved_by_two(
                    old(self).players@[i],
                    #[trigger] final(self).players@[i],
                ),
            match final(self).has_longest_road {
                Some(h) => final(self).has_player(h) && final(self).spec_player(
                    h,
                ).victory_points.public >= 2,
                None => true,
            },
            w is Some ==> w == final(self).spec_winner(),
    {
        let me = self.players[pi].id;
        let rd = match self.get_road_copy(&road) {
            Some(r) => r,
            None => {
                proof {
                    assert(false);
                }
                return None;
            },
        };
        proof {
            assert(rd.index == road);
        }
        let placed = crate::road::Road {
            index: rd.index,
            orientation: rd.orientation,
            owner: Some(me),
        };
        let ok = self.board.set_road(&road, placed);
        proof {
            assert(ok);
            assert forall|idx: Index| #[trigger] self.board.node_at(idx) is Some implies
                crate::board::node_index(self.board.node_at(idx).unwrap()) == idx by {
                if idx != road {
                    assert(self.board.node_at(idx) == old(self).board.node_at(idx));
                }
            };
            assert(self.board.nodes_indexed());
        }
        let mut p = clone_player(&self.players[pi]);
        p.push_road(&placed);
        self.set_player_at(pi, p);
        proof {
            lemma_pidx_unchanged_ids(old(self).players@, self.players@, me);
            crate::game::lemma_pidx(self.players@, me, 0);
            crate::game::lemma_pidx(old(self).players@, me, 0);
            assert(self.players@[pi as int].id == me);
            assert(self.has_player(me));
            match self.has_longest_road {
                Some(h) => {
                    let hi = choose|hi: int|
                        0 <= hi < old(self).players@.len() && (#[trigger] old(
                            self,
                        ).players@[hi]).id == h;
                    assert(self.players@[hi].id == h);
                    assert(self.has_player(h));
                    lemma_pidx_unchanged_ids(old(self).players@, self.players@, h);
                    crate::game::lemma_pidx(self.players@, h, 0);
                    crate::game::lemma_pidx(old(self).players@, h, 0);
                    let hp = self.player_index(h);
                    assert(self.players@[hp].id == h);
                    assert(self.players@[hp].victory_points == old(self).players@[hp].victory_points);
                    assert(self.spec_player(h).victory_points.public >= 2);
                    assert(self.spec_player(h).victory_points.private >= self.spec_player(
                        h,
                    ).victory_points.public);
                },
                None => {},
            }
        }
        let ghost s1 = *self;
        let took = self.recalc_longest_road(me);
        proof {
            assert forall|k: int|
                0 <= k < self.player_order@.len() implies self.has_player(
                #[trigger] self.player_order@[k],
            ) by {
                let wi = choose|wi: int|
                    0 <= wi < old(self).players@.len() && (#[trigger] old(self).players@[wi]).id
                        == old(self).player_order@[k];
                assert(self.players@[wi].id == self.player_order@[k]);
            };
            if took {
                assert(self.players@[pi as int].id == me);
                assert(self.has_player(me));
                lemma_pidx_unchanged_ids(s1.players@, self.players@, me);
                crate::game::lemma_pidx(self.players@, me, 0);
                crate::game::lemma_pidx(s1.players@, me, 0);
                assert(self.player_index(me) == s1.player_index(me));
                assert(self.spec_player(me).victory_points.public >= 2);
            }
        }
        if took {
            let w = self.is_game_over();
            if w.is_some() {
                return w;
            }
        }
        None
    }

    /// A copy of the road stored at `index`.
    fn get_road_copy(&self, index: &Index) -> (out: Option<crate::road::Road>)
        ensures
            out == self.board.road_at(*index),
    {
        match self.board.get_road(index) {
            Some(r) => Some(*r),
            None => None,
        }
    }
}

impl Game {
    /// Resolves one requested move.  The acting player must exist and
    /// the request must be in their legal-action catalog (the two
    /// placeholder kinds match by position, their real parameters being
    /// validated here); otherwise the request is rejected and the match
    /// state is byte-for-byte unchanged.  A rejected move never mutates
    /// anything.
    ///
    /// The structural validity `wf` is required but not re-ensured:
    /// its arithmetic-headroom caps bound counters that legitimate play
    /// can grow past over enough turns, so no fixed cap survives every
    /// move as a postcondition.  A caller chaining moves re-establishes
    /// validity at run time with `check_wf`, whose true answer is
    /// proven to imply `wf`.
    #[verifier::loop_isolation(false)]
    #[verifier::rlimit(100)]
    #[verifier::spinoff_prover]
    pub fn make_move(&mut self, me: PlayerId, req: Request, rng: &mut rand::rngs::StdRng) -> (out:
        Response)
        requires
            old(self).wf(),
        ensures
            !old(self).has_player(me) ==> out == Response::Err(Error::PlayerNotFound)
                && *final(self) == *old(self),
            old(self).has_player(me) ==> ((out == Response::Err(Error::InvalidAction))
                <==> !sentinel_legal(*old(self), old(self).spec_player(me), req)),
            out is Err ==> *final(self) == *old(self),
            final(self).player_order@ == old(self).player_order@,
            final(self).victory_points_goal == old(self).victory_points_goal,
            final(self).board.board_type == old(self).board.board_type,
            final(self).players@.len() == old(self).players@.len(),
            req == Request::RollDice(Option::<u8>::None) && old(self).round_number() <= 4 ==> (
            out matches Response::Ok(p) ==> (p matches Payload::Rolled(v) ==> v != 7)),
            out matches Response::Ok(p) ==> (p matches Payload::Rolled(v) ==> 2 <= v <= 12),
            forall|f: u8|
                req == Request::RollDice(Some(f)) ==> (out matches Response::Ok(p) ==> (p matches
                    Payload::Rolled(v) ==> v == f)),
            req == Request::EndTurn && out is Ok ==> final(self).turn_number == old(
                self,
            ).turn_number + 1 && !final(self).has_rolled,
            forall|j: Index|
                req == Request::BuildSettlement(j) && out is Ok
                    ==> (final(self).board.junction_at(j) matches Some(jv) && jv.owner == Some(me)
                    && jv.has_settlement && !jv.is_settleable)
                    && final(self).spec_player(me).settlements@.contains(j),
            forall|r: Index|
                req == Request::BuildRoad(r) && out is Ok ==> (final(self).board.road_at(r)
                    matches Some(rd) && rd.owner == Some(me)) && final(self).spec_player(
                    me,
                ).roads@.contains(r),
            old(self).has_player(me) && sentinel_legal(*old(self), old(self).spec_player(me), req)
                && non_sentinel_shape(req) ==> out is Ok,
            old(self).has_player(me) && !(req matches Request::OfferTrade(_)) ==> out
                != Response::Err(Error::PlayerNotFound),
            out == Response::Err(Error::PlayerNotFound) && old(self).has_player(me) ==> (req
                matches Request::OfferTrade(t) && t.with matches TradeWith::Players(ps) && exists|
                k: int,
            | 0 <= k < ps@.len() && !old(self).has_player(#[trigger] ps@[k])),
            req matches Request::RollDice(_) && old(self).has_player(me) && sentinel_legal(
                *old(self),
                old(self).spec_player(me),
                req,
            ) ==> final(self).has_rolled,
            forall|v: u8|
                req matches Request::RollDice(_) && out == Response::Ok(Payload::Rolled(v)) && v
                    != 7 ==> forall|i: int, r: Resource|
                    0 <= i < old(self).players@.len()
                        ==> #[trigger] final(self).players@[i].hand.cnt(r) as int == old(
                        self,
                    ).players@[i].hand.cnt(r) + roll_gain(
                        old(self).board,
                        old(self).robber_index,
                        v,
                        old(self).players@[i].id,
                        r,
                    ),
            forall|rs: Vec<Resource>|
                req == Request::Discard(rs) && old(self).has_player(me) && sentinel_legal(
                    *old(self),
                    old(self).spec_player(me),
                    req,
                ) ==> ({
                    let ln = rs@.len() as int;
                    let h = old(self).spec_player(me).hand;
                    let afford = res_count(rs@, Resource::Brick, ln) <= h.brick && res_count(
                        rs@,
                        Resource::Ore,
                        ln,
                    ) <= h.ore && res_count(rs@, Resource::Sheep, ln) <= h.sheep && res_count(
                        rs@,
                        Resource::Wheat,
                        ln,
                    ) <= h.wheat && res_count(rs@, Resource::Wood, ln) <= h.wood;
                    &&& ((out == Response::Err(Error::CannotAfford)) <==> !afford)
                    &&& ((out == Response::Err(Error::DiscardingTooMany)) <==> (afford && ln > old(
                        self,
                    ).spec_player(me).num_to_discard))
                    &&& ((out == Response::Ok(Payload::Null)) <==> (afford && ln <= old(
                        self,
                    ).spec_player(me).num_to_discard))
                    &&& (out is Ok ==> final(self).spec_player(me).num_to_discard == old(
                        self,
                    ).spec_player(me).num_to_discard - ln && final(self).spec_player(me).hand.total()
                        == h.total() - ln)
                }),
            forall|t: Trade|
                req == Request::OfferTrade(t) && old(self).has_player(me) && sentinel_legal(
                    *old(self),
                    old(self).spec_player(me),
                    req,
                ) ==> ((out == Response::Err(Error::CannotAfford)) <==> !old(self).spec_player(
                    me,
                ).hand.covers(t.giving)),
            forall|t: Trade|
                (req == Request::OfferTrade(t) && old(self).has_player(me) && sentinel_legal(
                    *old(self),
                    old(self).spec_player(me),
                    req,
                ) && t.with matches TradeWith::Bank) ==> ({
                    let rates = old(self).spec_player(me).bank_trade_rates;
                    let afford = old(self).spec_player(me).hand.covers(t.giving);
                    let multiples = t.giving.brick % rates.brick == 0 && t.giving.ore % rates.ore
                        == 0 && t.giving.sheep % rates.sheep == 0 && t.giving.wheat % rates.wheat
                        == 0 && t.giving.wood % rates.wood == 0;
                    let totals = t.getting.total() == t.giving.brick as int / rates.brick as int
                        + t.giving.ore as int / rates.ore as int + t.giving.sheep as int
                        / rates.sheep as int + t.giving.wheat as int / rates.wheat as int
                        + t.giving.wood as int / rates.wood as int;
                    &&& (afford && t.giving == t.getting ==> out == Response::Err(
                        Error::InvalidTrade,
                    ))
                    &&& (afford && t.giving != t.getting && multiples && totals ==> out
                        == Response::Ok(Payload::Null) && final(self).spec_player(me).hand == old(
                        self,
                    ).spec_player(me).hand.minus(t.giving).plus(t.getting))
                    &&& (afford && t.giving != t.getting && !(multiples && totals) ==> out
                        == Response::Err(Error::InvalidTrade))
                }),
    {
        let pi = match self.find_player(me) {
            None => { return Response::Err(Error::PlayerNotFound) },
            Some(i) => i,
        };
        if !self.action_allowed(pi, &req) {
            return Response::Err(Error::InvalidAction);
        }
        proof {
            crate::game::lemma_pidx(self.players@, me, 0);
            assert(old(self).spec_player(me) == self.players@[pi as int]);
        }
        match req {
            Request::AcceptTrade => self.do_accept_trade(pi),
            Request::BuildCity(junction) => self.do_build_city(pi, junction),
            Request::BuildRoad(road) => {
                let o = self.do_build_road(pi, road);
                proof {
                    lemma_pidx_unchanged_ids(old(self).players@, self.players@, me);
                    crate::game::lemma_pidx(self.players@, me, 0);
                    crate::game::lemma_pidx(old(self).players@, me, 0);
                    assert(self.spec_player(me) == self.players@[pi as int]);
                }
                o
            },
            Request::BuildSettlement(junction) => {
                let o = self.do_build_settlement(pi, junction);
                proof {
                    lemma_pidx_unchanged_ids(old(self).players@, self.players@, me);
                    crate::game::lemma_pidx(self.players@, me, 0);
                    crate::game::lemma_pidx(old(self).players@, me, 0);
                    assert(self.spec_player(me) == self.players@[pi as int]);
                }
                o
            },
            Request::BuyDevCard => self.do_buy_dev_card(pi),
            Request::CancelTrade => self.do_cancel_trade(pi),
            Request::ChooseInitialResources(junction) => self.do_choose_initial(pi, junction),
            Request::DeclineTrade => self.do_decline_trade(pi),
            Request::Discard(resources) => {
                proof {
                    lemma_res_count_total(resources@, resources@.len() as int);
                }
                let o = self.do_discard(pi, resources);
                proof {
                    lemma_pidx_unchanged_ids(old(self).players@, self.players@, me);
                    crate::game::lemma_pidx(self.players@, me, 0);
                    crate::game::lemma_pidx(old(self).players@, me, 0);
                    assert(self.spec_player(me) == self.players@[pi as int]);
                }
                o
            },
            Request::EndTurn => self.do_end_turn(pi),
            Request::MoveRobber(hex) => self.do_move_robber(pi, hex),
            Request::OfferTrade(trade) => {
                let o = self.do_offer_trade(pi, trade);
                proof {
                    lemma_pidx_unchanged_ids(old(self).players@, self.players@, me);
                    crate::game::lemma_pidx(self.players@, me, 0);
                    crate::game::lemma_pidx(old(self).players@, me, 0);
                    assert(self.spec_player(me) == self.players@[pi as int]);
                }
                o
            },
            Request::PlayKnight(hex) => self.do_play_knight(pi, hex),
            Request::PlayMonopoly(resource) => self.do_play_monopoly(pi, resource),
            Request::PlayRoadBuilding(r1, r2) => self.do_play_road_building(pi, r1, r2),
            Request::PlayVictoryPoint => self.do_play_victory_point(pi),
            Request::PlayYearOfPlenty(r1, r2) => self.do_play_year_of_plenty(pi, r1, r2),
            Request::RollDice(forced) => self.do_roll_dice(pi, forced, rng),
            Request::StealFrom(from) => self.do_steal_from(pi, from, rng),
        }
    }

    #[verifier::loop_isolation(false)]
    #[verifier::rlimit(100)]
    #[verifier::spinoff_prover]
    fn do_accept_trade(&mut self, pi: usize) -> (out: Response)
        requires
            old(self).wf(),
            (pi as int) < old(self).players@.len(),
            sentinel_legal(*old(self), old(self).players@[pi as int], Request::AcceptTrade),
        ensures
            out != Response::Err(Error::InvalidAction),
            out is Err ==> *final(self) == *old(self),
            final(self).player_order@ == old(self).player_order@,
            final(self).victory_points_goal == old(self).victory_points_goal,
            final(self).board.board_type == old(self).board.board_type,
            final(self).players@.len() == old(self).players@.len(),
            no_roll_payload(out),
            out == Response::Ok(Payload::Null),
            ({
                let t = old(self).current_trade.unwrap();
                let ci = old(self).player_index(old(self).current_player_id());
                &&& final(self).current_trade is None
                &&& final(self).players@[pi as int].hand == old(self).players@[pi as int].hand.minus(
                    t.getting,
                ).plus(t.giving)
                &&& final(self).players@[ci].hand == old(self).players@[ci].hand.minus(
                    t.giving,
                ).plus(t.getting)
                &&& forall|i: int|
                    0 <= i < old(self).players@.len() && i != pi as int && i != ci
                        ==> (#[trigger] final(self).players@[i]).hand == old(self).players@[i].hand
            }),
            final(self).board == old(self).board,
            final(self).turn_number == old(self).turn_number,
    {
        let me = self.players[pi].id;
        let ghost g0 = *self;
        let ghost p0 = self.players@[pi as int];
        let (giving, getting) = match &self.current_trade {
            Some(t) => (t.giving, t.getting),
            None => {
                proof {
                    assert(false);
                }
                return Response::Err(Error::InvalidAction);
            },
        };
        let mut p = clone_player(&self.players[pi]);
        p.spend(&getting);
        proof {
            assert(giving.cnt(Resource::Brick) <= 0x1000000 && giving.cnt(Resource::Ore)
                <= 0x1000000 && giving.cnt(Resource::Sheep) <= 0x1000000 && giving.cnt(
                Resource::Wheat,
            ) <= 0x1000000 && giving.cnt(Resource::Wood) <= 0x1000000);
            assert(p0.hand.cnt(Resource::Brick) <= 0x1000000 && p0.hand.cnt(Resource::Ore)
                <= 0x1000000 && p0.hand.cnt(Resource::Sheep) <= 0x1000000 && p0.hand.cnt(
                Resource::Wheat,
            ) <= 0x1000000 && p0.hand.cnt(Resource::Wood) <= 0x1000000);
            assert(p.hand.add_fits(giving));
        }
        p.accrue(&giving);
        self.set_player_at(pi, p);
        let cur_id = self.player_order[self.current_player_index];
        proof {
            let wi = choose|wi: int|
                0 <= wi < g0.players@.len() && (#[trigger] g0.players@[wi]).id == cur_id;
            assert(self.players@[wi].id == cur_id);
            assert(me != cur_id);
        }
        let ci = match self.find_player(cur_id) {
            Some(c) => c,
            None => {
                proof {
                    assert(false);
                }
                return Response::Err(Error::InvalidAction);
            },
        };
        proof {
            assert(self.players@[ci as int].id == cur_id && self.players@[pi as int].id
                == me);
            assert(ci != pi);
            lemma_pidx_unchanged_ids(g0.players@, self.players@, cur_id);
            crate::game::lemma_pidx(g0.players@, cur_id, 0);
            assert(self.players@[ci as int] == g0.players@[ci as int]);
            assert(peq(g0.players@[ci as int], g0.spec_player(cur_id)));
        }
        let mut o = clone_player(&self.players[ci]);
        o.spend(&giving);
        proof {
            assert(getting.cnt(Resource::Brick) <= 0x1000000 && getting.cnt(Resource::Ore)
                <= 0x1000000 && getting.cnt(Resource::Sheep) <= 0x1000000 && getting.cnt(
                Resource::Wheat,
            ) <= 0x1000000 && getting.cnt(Resource::Wood) <= 0x1000000);
            assert(g0.players@[ci as int].hand.cnt(Resource::Brick) <= 0x1000000
                && g0.players@[ci as int].hand.cnt(Resource::Ore) <= 0x1000000
                && g0.players@[ci as int].hand.cnt(Resource::Sheep) <= 0x1000000
                && g0.players@[ci as int].hand.cnt(Resource::Wheat) <= 0x1000000
                && g0.players@[ci as int].hand.cnt(Resource::Wood) <= 0x1000000);
            assert(o.hand.add_fits(getting));
        }
        o.accrue(&getting);
        self.set_player_at(ci, o);
        self.set_trade(None);
        proof {
            assert(self.player_order@ == g0.player_order@);
            assert(self.victory_points_goal == g0.victory_points_goal);
            assert(self.board == g0.board);
            assert(self.players@.len() == g0.players@.len());
        }
        Response::Ok(Payload::Null)
    }

    #[verifier::loop_isolation(false)]
    #[verifier::rlimit(100)]
    #[verifier::spinoff_prover]
    fn do_build_city(&mut self, pi: usize, junction: Index) -> (out: Response)
        requires
            old(self).wf(),
            (pi as int) < old(self).players@.len(),
            sentinel_legal(*old(self), old(self).players@[pi as int], Request::BuildCity(junction)),
        ensures
            out != Response::Err(Error::InvalidAction),
            out is Err ==> *final(self) == *old(self),
            final(self).player_order@ == old(self).player_order@,
            final(self).victory_points_goal == old(self).victory_points_goal,
            final(self).board.board_type == old(self).board.board_type,
            final(self).players@.len() == old(self).players@.len(),
            no_roll_payload(out),
            out == Response::Ok(Payload::Null),
            final(self).board.junction_at(junction) matches Some(j) && j.has_city && j.owner == old(
                self,
            ).board.junction_at(junction).unwrap().owner,
            forall|q: Index| q != junction ==> #[trigger] final(self).board.node_at(q) == old(
                self,
            ).board.node_at(q),
            ({
                let p0 = old(self).players@[pi as int];
                let p1 = final(self).players@[pi as int];
                &&& p1.hand == p0.hand.minus(crate::boards::spec_city_cost(
                    old(self).board.board_type,
                ))
                &&& p1.victory_points.public == p0.victory_points.public + 1
                &&& p1.victory_points.private == p0.victory_points.private + 1
                &&& p1.state == PlayerState::Root
                &&& forall|q: Index| #[trigger] p1.cities@.contains(q) <==> p0.cities@.contains(q)
                    || q == junction
                &&& p1.settlements@ == p0.settlements@
                &&& p1.roads@ == p0.roads@
            }),
            forall|i: int|
                0 <= i < old(self).players@.len() && i != pi as int
                    ==> #[trigger] final(self).players@[i] == old(self).players@[i],
            final(self).turn_number == old(self).turn_number,
            final(self).current_trade == old(self).current_trade,
    {
        let me = self.players[pi].id;
        let ghost g0 = *self;
        let ghost p0 = self.players@[pi as int];
        let jv = match self.get_junction_copy(&junction) {
            Some(j) => j,
            None => {
                proof {
                    let ci = choose|ci: int|
                        0 <= ci < p0.settlements@.len() && p0.settlements@[ci] == junction;
                    assert(false);
                }
                return Response::Err(Error::InvalidAction);
            },
        };
        let updated = crate::junction::Junction { has_city: true, ..jv };
        let ok = self.board.set_junction(&junction, updated);
        proof {
            assert(ok);
        }
        let cost = crate::boards::city_cost(self.board.board_type);
        let mut p = clone_player(&self.players[pi]);
        p.spend(&cost);
        p.push_city(&updated);
        p.victory_points.public = p.victory_points.public + 1;
        p.victory_points.private = p.victory_points.private + 1;
        p.state = PlayerState::Root;
        self.set_player_at(pi, p);
        Response::Ok(Payload::Null)
    }

    #[verifier::loop_isolation(false)]
    #[verifier::rlimit(100)]
    #[verifier::spinoff_prover]
    fn do_build_road(&mut self, pi: usize, road: Index) -> (out: Response)
        requires
            old(self).wf(),
            (pi as int) < old(self).players@.len(),
            sentinel_legal(*old(self), old(self).players@[pi as int], Request::BuildRoad(road)),
        ensures
            out != Response::Err(Error::InvalidAction),
            out is Err ==> *final(self) == *old(self),
            final(self).player_order@ == old(self).player_order@,
            final(self).victory_points_goal == old(self).victory_points_goal,
            final(self).board.board_type == old(self).board.board_type,
            final(self).players@.len() == old(self).players@.len(),
            no_roll_payload(out),
            forall|i: int|
                0 <= i < old(self).players@.len() ==> (#[trigger] final(self).players@[i]).id
                    == old(self).players@[i].id,
            out is Ok,
            final(self).board.road_at(road) matches Some(rd) && rd.owner == Some(
                old(self).players@[pi as int].id,
            ),
            forall|q: Index| q != road ==> #[trigger] final(self).board.node_at(q) == old(
                self,
            ).board.node_at(q),
            forall|q: Index| #[trigger] final(self).players@[pi as int].roads@.contains(q) <==> old(
                self,
            ).players@[pi as int].roads@.contains(q) || q == road,
            out == Response::Ok(Payload::Null) || (out matches Response::Ok(pl) && pl matches
                Payload::GameOver(_)),
    {
        let me = self.players[pi].id;
        let ghost g0 = *self;
        let ghost p0 = self.players@[pi as int];
        let n = self.player_order.len() as u64;
        let round = self.turn_number / n;
        proof {
            assert(self.board.road_at(road) is Some);
        }
        if let Some(winner) = self.build_road_core(pi, road) {
            return Response::Ok(Payload::GameOver(winner));
        }
        let mut p = clone_player(&self.players[pi]);
        let pay = round > 1 && matches!(p.state, PlayerState::Root);
        if pay {
            proof {
                assert(p.hand == p0.hand);
            }
            let cost = crate::boards::road_cost(self.board.board_type);
            p.spend(&cost);
        }
        p.state = if round == 0 {
            PlayerState::WaitForTurn
        } else if round == 1 {
            PlayerState::ChooseInitialResources
        } else {
            PlayerState::Root
        };
        self.set_player_at(pi, p);
        if round == 0 {
            proof {
                assert forall|k: int|
                    0 <= k < self.player_order@.len() implies self.has_player(
                    #[trigger] self.player_order@[k],
                ) by {
                    let wi = choose|wi: int|
                        0 <= wi < g0.players@.len() && (#[trigger] g0.players@[wi]).id
                            == g0.player_order@[k];
                    assert(self.players@[wi].id == self.player_order@[k]);
                };
            }
            self.increment_turn();
        }
        Response::Ok(Payload::Null)
    }

    #[verifier::loop_isolation(false)]
    #[verifier::rlimit(100)]
    #[verifier::spinoff_prover]
    fn do_build_settlement(&mut self, pi: usize, junction: Index) -> (out: Response)
        requires
            old(self).wf(),
            (pi as int) < old(self).players@.len(),
            sentinel_legal(*old(self), old(self).players@[pi as int], Request::BuildSettlement(junction)),
        ensures
            out != Response::Err(Error::InvalidAction),
            out is Err ==> *final(self) == *old(self),
            final(self).player_order@ == old(self).player_order@,
            final(self).victory_points_goal == old(self).victory_points_goal,
            final(self).board.board_type == old(self).board.board_type,
            final(self).players@.len() == old(self).players@.len(),
            no_roll_payload(out),
            forall|i: int|
                0 <= i < old(self).players@.len() ==> (#[trigger] final(self).players@[i]).id
                    == old(self).players@[i].id,
            out is Ok,
            final(self).board.junction_at(junction) matches Some(j) && j.owner == Some(
                old(self).players@[pi as int].id,
            ) && j.has_settlement && !j.is_settleable,
            final(self).players@[pi as int].settlements@.contains(junction),
            forall|t: Index|
                crate::board::jj_adjacent(junction, t)
                    ==> match #[trigger] final(self).board.junction_at(t) {
                    Some(jt) => !jt.is_settleable,
                    None => true,
                },
            out == Response::Ok(Payload::Null) || (out matches Response::Ok(pl) && pl matches
                Payload::GameOver(_)),
    {
        let me = self.players[pi].id;
        let ghost g0 = *self;
        let ghost p0 = self.players@[pi as int];
        let n = self.player_order.len() as u64;
        let round = self.turn_number / n;
        let free = round <= 1;
        let mut p = clone_player(&self.players[pi]);
        if !free {
            let cost = crate::boards::settlement_cost(self.board.board_type);
            p.spend(&cost);
        }
        let jv = match self.get_junction_copy(&junction) {
            Some(j) => j,
            None => {
                proof {
                    assert(false);
                }
                return Response::Err(Error::InvalidAction);
            },
        };
        let updated = crate::junction::Junction {
            owner: Some(me),
            has_settlement: true,
            is_settleable: false,
            ..jv
        };
        let ok = self.board.set_junction(&junction, updated);
        proof {
            assert(ok);
        }
        p.push_settlement(&updated);
        p.victory_points.public = p.victory_points.public + 1;
        p.victory_points.private = p.victory_points.private + 1;
        p.state = if free {
            PlayerState::AfterBuildingFreeSettlement
        } else {
            PlayerState::Root
        };
        self.set_player_at(pi, p);
        proof {
            match self.has_longest_road {
                Some(h) => {
                    let wi = choose|wi: int|
                        0 <= wi < g0.players@.len() && (#[trigger] g0.players@[wi]).id
                            == h;
                    assert(self.players@[wi].id == h);
                    assert(self.has_player(h));
                    lemma_pidx_unchanged_ids(g0.players@, self.players@, h);
                    crate::game::lemma_pidx(self.players@, h, 0);
                    crate::game::lemma_pidx(g0.players@, h, 0);
                    let hp = self.player_index(h);
                    if hp == pi as int {
                        assert(self.players@[hp].victory_points.public >= 2);
                    } else {
                        assert(self.players@[hp] == g0.players@[hp]);
                    }
                    assert(self.spec_player(h).victory_points.public >= 2);
                },
                None => {},
            }
        }
        // neighbor junctions become unsettleable
        let ghost b1 = self.board;
        let ghost ps1 = self.players@;
        let ns = self.board.junction_neighbors_of_junction(&junction);
        let mut k: usize = 0;
        while k < ns.len()
            invariant
                k <= ns@.len(),
                self.board.nodes_indexed(),
                self.players@ == ps1,
                forall|jv: Junction| #[trigger] ns@.contains(jv) <==> (crate::board::jj_adjacent(
                    junction,
                    jv.index,
                ) && b1.junction_at(jv.index) == Some(jv)),
                forall|q: Index| (#[trigger] self.board.junction_at(q)) is Some
                    ==> b1.junction_at(q) is Some,
                forall|ji: int|
                    0 <= ji < k ==> match self.board.junction_at(
                        (#[trigger] ns@[ji]).index,
                    ) {
                        Some(jt) => !jt.is_settleable,
                        None => true,
                    },
                match self.board.junction_at(junction) {
                    Some(j) => j.owner == Some(me) && j.has_settlement && !j.is_settleable,
                    None => false,
                },
                self.player_order@ == g0.player_order@,
                self.current_player_index == g0.current_player_index,
                self.victory_points_goal == g0.victory_points_goal,
                self.turn_number == g0.turn_number,
                self.has_rolled == g0.has_rolled,
                self.current_trade == g0.current_trade,
                self.has_largest_army == g0.has_largest_army,
                self.has_longest_road == g0.has_longest_road,
                self.board.board_type == g0.board.board_type,
            decreases ns@.len() - k,
        {
            let nj = ns[k];
            let idx = nj.index;
            if let Some(cur) = self.get_junction_copy(&idx) {
                let ghost before = *self;
                let upd = crate::junction::Junction { is_settleable: false, ..cur };
                let ok2 = self.board.set_junction(&idx, upd);
                proof {
                    assert(ok2);
                    assert forall|q: Index| #[trigger] self.board.node_at(q) is Some
                        implies crate::board::node_index(self.board.node_at(q).unwrap())
                        == q by {
                        if q != idx {
                            assert(self.board.node_at(q) == before.board.node_at(q));
                        }
                    };
                    assert forall|q: Index|
                        (#[trigger] self.board.junction_at(q)) is Some implies b1.junction_at(q)
                            is Some by {
                        if q != idx {
                            assert(self.board.node_at(q) == before.board.node_at(q));
                        } else {
                            assert(before.board.junction_at(q) == Some(cur));
                        }
                    };
                }
            }
            k += 1;
        }
        proof {
            assert forall|t: Index|
                crate::board::jj_adjacent(junction, t) implies match #[trigger] self
                .board.junction_at(t) {
                Some(jt) => !jt.is_settleable,
                None => true,
            } by {
                if t == junction {
                } else {
                    match b1.junction_at(t) {
                        Some(jv) => {
                            assert(jv.index == t);
                            assert(ns@.contains(jv));
                            let ji = choose|ji: int| 0 <= ji < ns@.len() && ns@[ji] == jv;
                            assert(match self.board.junction_at(ns@[ji].index) {
                                Some(jt) => !jt.is_settleable,
                                None => true,
                            });
                        },
                        None => {
                            if self.board.junction_at(t) is Some {
                                assert(b1.junction_at(t) is Some);
                            }
                        },
                    }
                }
            };
        }
        proof {
            assert(self.players@[pi as int].id == me);
            crate::game::lemma_pidx(self.players@, me, 0);
            lemma_pidx_unchanged_ids(g0.players@, self.players@, me);
            assert(self.has_player(me));
            match self.has_longest_road {
                Some(h) => {
                    lemma_pidx_unchanged_ids(g0.players@, self.players@, h);
                    crate::game::lemma_pidx(self.players@, h, 0);
                    crate::game::lemma_pidx(g0.players@, h, 0);
                },
                None => {},
            }
        }
        let took = self.recalc_longest_road(me);
        if took {
            proof {
                assert forall|k2: int|
                    0 <= k2 < self.player_order@.len() implies self.has_player(
                    #[trigger] self.player_order@[k2],
                ) by {
                    let wi = choose|wi: int|
                        0 <= wi < g0.players@.len() && (#[trigger] g0.players@[wi]).id
                            == g0.player_order@[k2];
                    assert(self.players@[wi].id == self.player_order@[k2]);
                };
            }
            if let Some(winner) = self.is_game_over() {
                return Response::Ok(Payload::GameOver(winner));
            }
        }
        Response::Ok(Payload::Null)
    }

    #[verifier::loop_isolation(false)]
    #[verifier::rlimit(100)]
    #[verifier::spinoff_prover]
    fn do_buy_dev_card(&mut self, pi: usize) -> (out: Response)
        requires
            old(self).wf(),
            (pi as int) < old(self).players@.len(),
            sentinel_legal(*old(self), old(self).players@[pi as int], Request::BuyDevCard),
        ensures
            out != Response::Err(Error::InvalidAction),
            out is Err ==> *final(self) == *old(self),
            final(self).player_order@ == old(self).player_order@,
            final(self).victory_points_goal == old(self).victory_points_goal,
            final(self).board.board_type == old(self).board.board_type,
            final(self).players@.len() == old(self).players@.len(),
            no_roll_payload(out),
            out is Ok,
            final(self).dev_cards@ == old(self).dev_cards@.drop_last(),
            ({
                let card = old(self).dev_cards@.last();
                let p0 = old(self).players@[pi as int];
                let p1 = final(self).players@[pi as int];
                &&& p1.hand == p0.hand.minus(crate::boards::spec_dev_card_cost(
                    old(self).board.board_type,
                ))
                &&& p1.dev_cards@ == p0.dev_cards@.push(
                    crate::dev_card::DevCardInHand::new_spec(card),
                )
                &&& p1.victory_points.private == p0.victory_points.private + (if card
                    == DevCard::VictoryPoint {
                    1int
                } else {
                    0int
                })
                &&& p1.victory_points.public == p0.victory_points.public
                &&& p1.state == PlayerState::Root
                &&& (out == Response::Ok(Payload::Drew(card)) || (out matches Response::Ok(pl)
                    && pl matches Payload::GameOver(_)))
            }),
            forall|i: int|
                0 <= i < old(self).players@.len() && i != pi as int
                    ==> #[trigger] final(self).players@[i] == old(self).players@[i],
            final(self).board == old(self).board,
            final(self).turn_number == old(self).turn_number,
    {
        let me = self.players[pi].id;
        let ghost g0 = *self;
        let ghost p0 = self.players@[pi as int];
        let card = match self.dev_cards.pop() {
            Some(c) => c,
            None => {
                proof {
                    assert(false);
                }
                return Response::Err(Error::InvalidAction);
            },
        };
        let cost = crate::boards::dev_card_cost(self.board.board_type);
        let mut p = clone_player(&self.players[pi]);
        p.spend(&cost);
        p.push_dev_card(card);
        if card == crate::dev_card::DevCard::VictoryPoint {
            p.victory_points.private = p.victory_points.private + 1;
        }
        p.state = PlayerState::Root;
        self.set_player_at(pi, p);
        proof {
            assert forall|k: int|
                0 <= k < self.player_order@.len() implies self.has_player(
                #[trigger] self.player_order@[k],
            ) by {
                let wi = choose|wi: int|
                    0 <= wi < g0.players@.len() && (#[trigger] g0.players@[wi]).id
                        == g0.player_order@[k];
                assert(self.players@[wi].id == self.player_order@[k]);
            };
        }
        if let Some(winner) = self.is_game_over() {
            return Response::Ok(Payload::GameOver(winner));
        }
        Response::Ok(Payload::Drew(card))
    }

    #[verifier::loop_isolation(false)]
    #[verifier::rlimit(100)]
    #[verifier::spinoff_prover]
    fn do_cancel_trade(&mut self, pi: usize) -> (out: Response)
        requires
            old(self).wf(),
            (pi as int) < old(self).players@.len(),
            sentinel_legal(*old(self), old(self).players@[pi as int], Request::CancelTrade),
        ensures
            out != Response::Err(Error::InvalidAction),
            out is Err ==> *final(self) == *old(self),
            final(self).player_order@ == old(self).player_order@,
            final(self).victory_points_goal == old(self).victory_points_goal,
            final(self).board.board_type == old(self).board.board_type,
            final(self).players@.len() == old(self).players@.len(),
            no_roll_payload(out),
            out == Response::Ok(Payload::Null),
            final(self).current_trade is None,
            forall|i: int|
                0 <= i < old(self).players@.len() ==> trade_rel(
                    old(self).players@[i],
                    #[trigger] final(self).players@[i],
                    old(self).players@[i].id == old(self).current_player_id(),
                    true,
                ),
            final(self).board == old(self).board,
            final(self).turn_number == old(self).turn_number,
    {
        let me = self.players[pi].id;
        let ghost g0 = *self;
        let ghost p0 = self.players@[pi as int];
        self.set_trade(None);
        Response::Ok(Payload::Null)
    }

    #[verifier::loop_isolation(false)]
    #[verifier::rlimit(100)]
    #[verifier::spinoff_prover]
    fn do_choose_initial(&mut self, pi: usize, junction: Index) -> (out: Response)
        requires
            old(self).wf(),
            (pi as int) < old(self).players@.len(),
            sentinel_legal(*old(self), old(self).players@[pi as int], Request::ChooseInitialResources(junction)),
        ensures
            out != Response::Err(Error::InvalidAction),
            out is Err ==> *final(self) == *old(self),
            final(self).player_order@ == old(self).player_order@,
            final(self).victory_points_goal == old(self).victory_points_goal,
            final(self).board.board_type == old(self).board.board_type,
            final(self).players@.len() == old(self).players@.len(),
            no_roll_payload(out),
            out == Response::Ok(Payload::Null),
            final(self).turn_number == old(self).turn_number + 1,
            !final(self).has_rolled,
    {
        let me = self.players[pi].id;
        let ghost g0 = *self;
        let ghost p0 = self.players@[pi as int];
        let mut bundle = ResourceCounts::new();
        let hs = self.board.hex_neighbors_of_junction(&junction);
        let mut k: usize = 0;
        while k < hs.len()
            invariant
                k <= hs@.len(),
                hs@.len() <= 6,
                forall|r: Resource| #[trigger] bundle.cnt(r) <= k,
            decreases hs@.len() - k,
        {
            match hs[k].hex_type {
                crate::hex::HexType::WithResource(hr) => {
                    bundle = bundle.bump(hr.resource, 1);
                },
                _ => {},
            }
            k += 1;
        }
        let mut p = clone_player(&self.players[pi]);
        proof {
            assert(bundle.cnt(Resource::Brick) <= 6 && bundle.cnt(Resource::Ore) <= 6
                && bundle.cnt(Resource::Sheep) <= 6 && bundle.cnt(Resource::Wheat) <= 6
                && bundle.cnt(Resource::Wood) <= 6);
            assert(p0.hand.cnt(Resource::Brick) <= 0x1000000 && p0.hand.cnt(Resource::Ore)
                <= 0x1000000 && p0.hand.cnt(Resource::Sheep) <= 0x1000000 && p0.hand.cnt(
                Resource::Wheat,
            ) <= 0x1000000 && p0.hand.cnt(Resource::Wood) <= 0x1000000);
            assert(p.hand.add_fits(bundle));
        }
        p.accrue(&bundle);
        self.set_player_at(pi, p);
        proof {
            assert forall|k2: int|
                0 <= k2 < self.player_order@.len() implies self.has_player(
                #[trigger] self.player_order@[k2],
            ) by {
                let wi = choose|wi: int|
                    0 <= wi < g0.players@.len() && (#[trigger] g0.players@[wi]).id
                        == g0.player_order@[k2];
                assert(self.players@[wi].id == self.player_order@[k2]);
            };
        }
        self.increment_turn();
        Response::Ok(Payload::Null)
    }

    #[verifier::loop_isolation(false)]
    #[verifier::rlimit(100)]
    #[verifier::spinoff_prover]
    fn do_decline_trade(&mut self, pi: usize) -> (out: Response)
        requires
            old(self).wf(),
            (pi as int) < old(self).players@.len(),
            sentinel_legal(*old(self), old(self).players@[pi as int], Request::DeclineTrade),
        ensures
            out != Response::Err(Error::InvalidAction),
            out is Err ==> *final(self) == *old(self),
            final(self).player_order@ == old(self).player_order@,
            final(self).victory_points_goal == old(self).victory_points_goal,
            final(self).board.board_type == old(self).board.board_type,
            final(self).players@.len() == old(self).players@.len(),
            no_roll_payload(out),
            out == Response::Ok(Payload::Null),
            final(self).players@[pi as int].has_declined_trade || final(self).current_trade
                is None,
            final(self).players@[pi as int].hand == old(self).players@[pi as int].hand,
            final(self).board == old(self).board,
            final(self).turn_number == old(self).turn_number,
    {
        let me = self.players[pi].id;
        let ghost g0 = *self;
        let ghost p0 = self.players@[pi as int];
        let mut p = clone_player(&self.players[pi]);
        p.has_declined_trade = true;
        self.set_player_at(pi, p);
        if !self.can_anyone_accept_trade() {
            self.set_trade(None);
        }
        Response::Ok(Payload::Null)
    }

    #[verifier::loop_isolation(false)]
    #[verifier::rlimit(100)]
    #[verifier::spinoff_prover]
    fn do_discard(&mut self, pi: usize, resources: Vec<Resource>) -> (out: Response)
        requires
            old(self).wf(),
            (pi as int) < old(self).players@.len(),
            sentinel_legal(*old(self), old(self).players@[pi as int], Request::Discard(resources)),
        ensures
            out != Response::Err(Error::InvalidAction),
            out is Err ==> *final(self) == *old(self),
            final(self).player_order@ == old(self).player_order@,
            final(self).victory_points_goal == old(self).victory_points_goal,
            final(self).board.board_type == old(self).board.board_type,
            final(self).players@.len() == old(self).players@.len(),
            no_roll_payload(out),
            out == Response::Ok(Payload::Null) || out == Response::Err(Error::CannotAfford) || out
                == Response::Err(Error::DiscardingTooMany),
            forall|i: int|
                0 <= i < old(self).players@.len() ==> (#[trigger] final(self).players@[i]).id
                    == old(self).players@[i].id,
            ({
                let ln = resources@.len() as int;
                let h = old(self).players@[pi as int].hand;
                let cb = res_count(resources@, Resource::Brick, ln);
                let co = res_count(resources@, Resource::Ore, ln);
                let cs = res_count(resources@, Resource::Sheep, ln);
                let cw = res_count(resources@, Resource::Wheat, ln);
                let cd = res_count(resources@, Resource::Wood, ln);
                let afford = cb <= h.brick && co <= h.ore && cs <= h.sheep && cw <= h.wheat && cd
                    <= h.wood;
                &&& ((out == Response::Err(Error::CannotAfford)) <==> !afford)
                &&& ((out == Response::Err(Error::DiscardingTooMany)) <==> (afford && ln > old(
                    self,
                ).players@[pi as int].num_to_discard))
                &&& (out is Ok ==> {
                    let p1 = final(self).players@[pi as int];
                    &&& out == Response::Ok(Payload::Null)
                    &&& p1.hand.brick == h.brick - cb
                    &&& p1.hand.ore == h.ore - co
                    &&& p1.hand.sheep == h.sheep - cs
                    &&& p1.hand.wheat == h.wheat - cw
                    &&& p1.hand.wood == h.wood - cd
                    &&& p1.num_to_discard == old(self).players@[pi as int].num_to_discard - ln
                })
            }),
            out is Ok ==> forall|i: int|
                0 <= i < old(self).players@.len() && i != pi as int
                    ==> #[trigger] final(self).players@[i] == old(self).players@[i],
            out is Ok ==> final(self).board == old(self).board && final(self).turn_number == old(
                self,
            ).turn_number && final(self).current_trade == old(self).current_trade,
    {
        let me = self.players[pi].id;
        let ghost g0 = *self;
        let ghost p0 = self.players@[pi as int];
        let mut brick: u64 = 0;
        let mut ore: u64 = 0;
        let mut sheep: u64 = 0;
        let mut wheat: u64 = 0;
        let mut wood: u64 = 0;
        let m = resources.len();
        let mut k: usize = 0;
        while k < m
            invariant
                m == resources@.len(),
                k <= m,
                brick == res_count(resources@, Resource::Brick, k as int),
                ore == res_count(resources@, Resource::Ore, k as int),
                sheep == res_count(resources@, Resource::Sheep, k as int),
                wheat == res_count(resources@, Resource::Wheat, k as int),
                wood == res_count(resources@, Resource::Wood, k as int),
                brick + ore + sheep + wheat + wood == k,
            decreases m - k,
        {
            match resources[k] {
                Resource::Brick => { brick = brick + 1 },
                Resource::Ore => { ore = ore + 1 },
                Resource::Sheep => { sheep = sheep + 1 },
                Resource::Wheat => { wheat = wheat + 1 },
                Resource::Wood => { wood = wood + 1 },
            }
            k += 1;
        }
        let h = &self.players[pi].hand;
        if brick > h.brick as u64 || ore > h.ore as u64 || sheep > h.sheep as u64 || wheat
            > h.wheat as u64 || wood > h.wood as u64 {
            return Response::Err(Error::CannotAfford);
        }
        if (m as u64) > self.players[pi].num_to_discard {
            return Response::Err(Error::DiscardingTooMany);
        }
        let diff = ResourceCounts {
            brick: brick as u32,
            ore: ore as u32,
            sheep: sheep as u32,
            wheat: wheat as u32,
            wood: wood as u32,
        };
        let mut p = clone_player(&self.players[pi]);
        p.spend(&diff);
        p.num_to_discard = p.num_to_discard - (m as u64);
        self.set_player_at(pi, p);
        Response::Ok(Payload::Null)
    }

    #[verifier::loop_isolation(false)]
    #[verifier::rlimit(100)]
    #[verifier::spinoff_prover]
    fn do_end_turn(&mut self, pi: usize) -> (out: Response)
        requires
            old(self).wf(),
            (pi as int) < old(self).players@.len(),
            sentinel_legal(*old(self), old(self).players@[pi as int], Request::EndTurn),
        ensures
            out != Response::Err(Error::InvalidAction),
            out is Err ==> *final(self) == *old(self),
            final(self).player_order@ == old(self).player_order@,
            final(self).victory_points_goal == old(self).victory_points_goal,
            final(self).board.board_type == old(self).board.board_type,
            final(self).players@.len() == old(self).players@.len(),
            out is Ok ==> final(self).turn_number == old(self).turn_number + 1
                && !final(self).has_rolled,
            no_roll_payload(out),
            out == Response::Ok(Payload::Null),
            final(self).current_player_index as int == crate::game::expected_index(
                old(self).turn_number + 1,
                old(self).num_players(),
            ),
            forall|i: int|
                0 <= i < old(self).players@.len() && i != pi as int ==> crate::game::reset_rel(
                    old(self).players@[i],
                    #[trigger] final(self).players@[i],
                    final(self).current_player_id(),
                ),
            crate::game::reset_rel(
                Player { state: PlayerState::WaitForTurn, ..old(self).players@[pi as int] },
                final(self).players@[pi as int],
                final(self).current_player_id(),
            ),
            final(self).board == old(self).board,
            final(self).current_trade == old(self).current_trade,
    {
        let me = self.players[pi].id;
        let ghost g0 = *self;
        let ghost p0 = self.players@[pi as int];
        let mut p = clone_player(&self.players[pi]);
        p.state = PlayerState::WaitForTurn;
        self.set_player_at(pi, p);
        proof {
            assert forall|k: int|
                0 <= k < self.player_order@.len() implies self.has_player(
                #[trigger] self.player_order@[k],
            ) by {
                let wi = choose|wi: int|
                    0 <= wi < g0.players@.len() && (#[trigger] g0.players@[wi]).id
                        == g0.player_order@[k];
                assert(self.players@[wi].id == self.player_order@[k]);
            };
        }
        let ghost mid = *self;
        self.increment_turn();
        proof {
            assert(self.current_player_index as int == crate::game::expected_index(
                g0.turn_number + 1,
                g0.num_players(),
            ));
            assert forall|i2: int|
                0 <= i2 < g0.players@.len() && i2 != pi as int implies crate::game::reset_rel(
                g0.players@[i2],
                #[trigger] self.players@[i2],
                self.current_player_id(),
            ) by {
                assert(mid.players@[i2] == g0.players@[i2]);
                assert(crate::game::reset_rel(
                    mid.players@[i2],
                    self.players@[i2],
                    self.current_player_id(),
                ));
            };
            assert(peq(
                mid.players@[pi as int],
                Player { state: PlayerState::WaitForTurn, ..g0.players@[pi as int] },
            ));
            assert(crate::game::reset_rel(
                mid.players@[pi as int],
                self.players@[pi as int],
                self.current_player_id(),
            ));
            assert(crate::game::reset_rel(
                Player { state: PlayerState::WaitForTurn, ..g0.players@[pi as int] },
                self.players@[pi as int],
                self.current_player_id(),
            ));
        }
        Response::Ok(Payload::Null)
    }

    #[verifier::loop_isolation(false)]
    #[verifier::rlimit(100)]
    #[verifier::spinoff_prover]
    fn do_move_robber(&mut self, pi: usize, hex: Index) -> (out: Response)
        requires
            old(self).wf(),
            (pi as int) < old(self).players@.len(),
            sentinel_legal(*old(self), old(self).players@[pi as int], Request::MoveRobber(hex)),
        ensures
            out != Response::Err(Error::InvalidAction),
            out is Err ==> *final(self) == *old(self),
            final(self).player_order@ == old(self).player_order@,
            final(self).victory_points_goal == old(self).victory_points_goal,
            final(self).board.board_type == old(self).board.board_type,
            final(self).players@.len() == old(self).players@.len(),
            no_roll_payload(out),
            out == Response::Ok(Payload::Null),
            final(self).robber_index == hex,
            final(self).players@[pi as int].state == (if exists|t: Index|
                #[trigger] hj_adjacent(hex, t) && rival_owner_at(
                    old(self).board,
                    t,
                    old(self).players@[pi as int].id,
                ) {
                PlayerState::Stealing
            } else {
                PlayerState::Root
            }),
            peq(
                final(self).players@[pi as int],
                Player { state: final(self).players@[pi as int].state, ..old(self).players@[
                    pi as int] },
            ),
            forall|i: int|
                0 <= i < old(self).players@.len() && i != pi as int
                    ==> #[trigger] final(self).players@[i] == old(self).players@[i],
            final(self).board == old(self).board,
            final(self).turn_number == old(self).turn_number,
            final(self).has_rolled == old(self).has_rolled,
            final(self).current_trade == old(self).current_trade,
    {
        let me = self.players[pi].id;
        let ghost g0 = *self;
        let ghost p0 = self.players@[pi as int];
        self.robber_index = hex;
        let can_steal = self.any_rival_adjacent(&hex, me);
        let mut p = clone_player(&self.players[pi]);
        p.state = if can_steal {
            PlayerState::Stealing
        } else {
            PlayerState::Root
        };
        self.set_player_at(pi, p);
        Response::Ok(Payload::Null)
    }

    #[verifier::loop_isolation(false)]
    #[verifier::rlimit(100)]
    #[verifier::spinoff_prover]
    fn do_offer_trade(&mut self, pi: usize, trade: Trade) -> (out: Response)
        requires
            old(self).wf(),
            (pi as int) < old(self).players@.len(),
            sentinel_legal(*old(self), old(self).players@[pi as int], Request::OfferTrade(trade)),
        ensures
            out != Response::Err(Error::InvalidAction),
            out is Err ==> *final(self) == *old(self),
            final(self).player_order@ == old(self).player_order@,
            final(self).victory_points_goal == old(self).victory_points_goal,
            final(self).board.board_type == old(self).board.board_type,
            final(self).players@.len() == old(self).players@.len(),
            no_roll_payload(out),
            forall|i: int|
                0 <= i < old(self).players@.len() ==> (#[trigger] final(self).players@[i]).id
                    == old(self).players@[i].id,
            out == Response::Ok(Payload::Null) || out == Response::Err(Error::CannotAfford) || out
                == Response::Err(Error::InvalidTrade) || out == Response::Err(
                Error::PlayerNotFound,
            ),
            trade.with matches TradeWith::Bank ==> ({
                let rates = old(self).players@[pi as int].bank_trade_rates;
                let afford = old(self).players@[pi as int].hand.covers(trade.giving);
                let multiples = trade.giving.brick % rates.brick == 0 && trade.giving.ore
                    % rates.ore == 0 && trade.giving.sheep % rates.sheep == 0 && trade.giving.wheat
                    % rates.wheat == 0 && trade.giving.wood % rates.wood == 0;
                let totals = trade.getting.total() == trade.giving.brick as int
                    / rates.brick as int + trade.giving.ore as int / rates.ore as int
                    + trade.giving.sheep as int / rates.sheep as int + trade.giving.wheat as int
                    / rates.wheat as int + trade.giving.wood as int / rates.wood as int;
                &&& (afford && trade.giving == trade.getting ==> out == Response::Err(
                    Error::InvalidTrade,
                ))
                &&& (afford && trade.giving != trade.getting && multiples && totals ==> out
                    == Response::Ok(Payload::Null))
                &&& (afford && trade.giving != trade.getting && !(multiples && totals) ==> out
                    == Response::Err(Error::InvalidTrade))
            }),
            trade.with matches TradeWith::Players(ps) ==> (out == Response::Err(
                Error::PlayerNotFound,
            ) ==> exists|k: int|
                0 <= k < ps@.len() && !old(self).has_player(#[trigger] ps@[k])),
            trade.with matches TradeWith::Players(ps) ==> ((old(self).players@[
                pi as int].hand.covers(trade.giving) && trade.giving != trade.getting && forall|
                k: int,
            |
                0 <= k < ps@.len() ==> old(self).has_player(#[trigger] ps@[k]) && ps@[k] != old(
                    self,
                ).players@[pi as int].id) ==> out == Response::Ok(Payload::Null)),
            (out == Response::Err(Error::CannotAfford)) <==> !old(self).players@[
                pi as int].hand.covers(trade.giving),
            trade.with matches TradeWith::Bank ==> (out is Ok ==> ({
                let rates = old(self).players@[pi as int].bank_trade_rates;
                &&& out == Response::Ok(Payload::Null)
                &&& final(self).players@[pi as int].hand == old(self).players@[
                    pi as int].hand.minus(trade.giving).plus(trade.getting)
                &&& trade.giving.brick % rates.brick == 0
                &&& trade.giving.ore % rates.ore == 0
                &&& trade.giving.sheep % rates.sheep == 0
                &&& trade.giving.wheat % rates.wheat == 0
                &&& trade.giving.wood % rates.wood == 0
                &&& trade.getting.total() == trade.giving.brick as int / rates.brick as int
                    + trade.giving.ore as int / rates.ore as int + trade.giving.sheep as int
                    / rates.sheep as int + trade.giving.wheat as int / rates.wheat as int
                    + trade.giving.wood as int / rates.wood as int
            })),
            trade.with matches TradeWith::Bank ==> (out is Ok ==> final(self).current_trade == old(
                self,
            ).current_trade),
    {
        let me = self.players[pi].id;
        let ghost g0 = *self;
        let ghost p0 = self.players@[pi as int];
        let Trade { giving, getting, with } = trade;
        if !self.players[pi].can_afford(&giving) {
            return Response::Err(Error::CannotAfford);
        }
        if giving == getting {
            return Response::Err(Error::InvalidTrade);
        }
        match with {
            TradeWith::Players(ps) => {
                let mut k: usize = 0;
                let mut anyone = false;
                while k < ps.len()
                    invariant
                        k <= ps@.len(),
                        *self == g0,
                        self.wf(),
                    decreases ps@.len() - k,
                {
                    let q = ps[k];
                    match self.find_player(q) {
                        None => { return Response::Err(Error::PlayerNotFound) },
                        Some(qi) => {
                            if q == me {
                                return Response::Err(Error::InvalidTrade);
                            }
                            if self.players[qi].can_afford(&getting) {
                                anyone = true;
                            }
                        },
                    }
                    k += 1;
                }
                if anyone {
                    self.set_trade(
                        Some(Trade { giving, getting, with: TradeWith::Players(ps) }),
                    );
                }
                Response::Ok(Payload::Null)
            },
            TradeWith::Bank => {
                let rates = &self.players[pi].bank_trade_rates;
                let mut power: u64 = 0;
                proof {
                    assert(rates.cnt(Resource::Brick) >= 2 && rates.cnt(Resource::Ore) >= 2
                        && rates.cnt(Resource::Sheep) >= 2 && rates.cnt(Resource::Wheat)
                        >= 2 && rates.cnt(Resource::Wood) >= 2);
                }
                if giving.brick % rates.brick != 0 || giving.ore % rates.ore != 0
                    || giving.sheep % rates.sheep != 0 || giving.wheat % rates.wheat != 0
                    || giving.wood % rates.wood != 0 {
                    return Response::Err(Error::InvalidTrade);
                }
                power = (giving.brick / rates.brick) as u64 + (giving.ore
                    / rates.ore) as u64 + (giving.sheep / rates.sheep) as u64
                    + (giving.wheat / rates.wheat) as u64 + (giving.wood
                    / rates.wood) as u64;
                let num_getting = getting.count_total();
                if num_getting != power {
                    return Response::Err(Error::InvalidTrade);
                }
                let mut p = clone_player(&self.players[pi]);
                p.spend(&giving);
                proof {
                    assert(p0.hand.cnt(Resource::Brick) <= 0x1000000 && p0.hand.cnt(
                        Resource::Ore,
                    ) <= 0x1000000 && p0.hand.cnt(Resource::Sheep) <= 0x1000000
                        && p0.hand.cnt(Resource::Wheat) <= 0x1000000 && p0.hand.cnt(
                        Resource::Wood,
                    ) <= 0x1000000);
                    assert(giving.brick <= 0x1000000 && giving.ore <= 0x1000000
                        && giving.sheep <= 0x1000000 && giving.wheat <= 0x1000000
                        && giving.wood <= 0x1000000);
                    assert(giving.brick / rates.brick <= giving.brick) by (nonlinear_arith)
                        requires rates.brick >= 2 && giving.brick >= 0;
                    assert(giving.ore / rates.ore <= giving.ore) by (nonlinear_arith)
                        requires rates.ore >= 2 && giving.ore >= 0;
                    assert(giving.sheep / rates.sheep <= giving.sheep) by (nonlinear_arith)
                        requires rates.sheep >= 2 && giving.sheep >= 0;
                    assert(giving.wheat / rates.wheat <= giving.wheat) by (nonlinear_arith)
                        requires rates.wheat >= 2 && giving.wheat >= 0;
                    assert(giving.wood / rates.wood <= giving.wood) by (nonlinear_arith)
                        requires rates.wood >= 2 && giving.wood >= 0;
                    assert(getting.total() <= 5 * 0x1000000);
                    assert(p.hand.add_fits(getting));
                }
                p.accrue(&getting);
                self.set_player_at(pi, p);
                Response::Ok(Payload::Null)
            },
        }
    }

    #[verifier::loop_isolation(false)]
    #[verifier::rlimit(100)]
    #[verifier::spinoff_prover]
    fn do_play_knight(&mut self, pi: usize, hex: Index) -> (out: Response)
        requires
            old(self).wf(),
            (pi as int) < old(self).players@.len(),
            sentinel_legal(*old(self), old(self).players@[pi as int], Request::PlayKnight(hex)),
        ensures
            out != Response::Err(Error::InvalidAction),
            out is Err ==> *final(self) == *old(self),
            final(self).player_order@ == old(self).player_order@,
            final(self).victory_points_goal == old(self).victory_points_goal,
            final(self).board.board_type == old(self).board.board_type,
            final(self).players@.len() == old(self).players@.len(),
            no_roll_payload(out),
            out is Ok,
            final(self).robber_index == hex,
            final(self).players@[pi as int].army_size == old(self).players@[pi as int].army_size
                + 1,
            final(self).players@[pi as int].has_played_dev_card,
            final(self).players@[pi as int].hand == old(self).players@[pi as int].hand,
            out == Response::Ok(Payload::Null) || (out matches Response::Ok(pl) && pl matches
                Payload::GameOver(_)),
    {
        let me = self.players[pi].id;
        let ghost g0 = *self;
        let ghost p0 = self.players@[pi as int];
        self.robber_index = hex;
        let can_steal = self.any_rival_adjacent(&hex, me);
        let mut p = clone_player(&self.players[pi]);
        p.army_size = p.army_size + 1;
        p.state = if can_steal {
            PlayerState::Stealing
        } else {
            PlayerState::Root
        };
        p.use_dev_card(&crate::dev_card::DevCard::Knight);
        self.set_player_at(pi, p);
        proof {
            assert(self.players@[pi as int].id == me);
            crate::game::lemma_pidx(self.players@, me, 0);
            lemma_pidx_unchanged_ids(g0.players@, self.players@, me);
            assert(self.has_player(me));
            match self.has_largest_army {
                Some(h) => {
                    lemma_pidx_unchanged_ids(g0.players@, self.players@, h);
                    crate::game::lemma_pidx(self.players@, h, 0);
                    crate::game::lemma_pidx(g0.players@, h, 0);
                },
                None => {},
            }
        }
        let took = self.recalc_largest_army(me);
        if took {
            proof {
                assert forall|k: int|
                    0 <= k < self.player_order@.len() implies self.has_player(
                    #[trigger] self.player_order@[k],
                ) by {
                    let wi = choose|wi: int|
                        0 <= wi < g0.players@.len() && (#[trigger] g0.players@[wi]).id
                            == g0.player_order@[k];
                    assert(self.players@[wi].id == self.player_order@[k]);
                };
            }
            if let Some(winner) = self.is_game_over() {
                return Response::Ok(Payload::GameOver(winner));
            }
        }
        Response::Ok(Payload::Null)
    }

    #[verifier::loop_isolation(false)]
    #[verifier::rlimit(100)]
    fn do_play_monopoly(&mut self, pi: usize, resource: Resource) -> (out: Response)
        requires
            old(self).wf(),
            (pi as int) < old(self).players@.len(),
            sentinel_legal(*old(self), old(self).players@[pi as int], Request::PlayMonopoly(resource)),
        ensures
            out != Response::Err(Error::InvalidAction),
            out is Err ==> *final(self) == *old(self),
            final(self).player_order@ == old(self).player_order@,
            final(self).victory_points_goal == old(self).victory_points_goal,
            final(self).board.board_type == old(self).board.board_type,
            final(self).players@.len() == old(self).players@.len(),
            no_roll_payload(out),
            out is Ok,
            out matches Response::Ok(pl) ==> pl matches Payload::Monopolized(_),
            forall|m: u32|
                out == Response::Ok(Payload::Monopolized(m)) ==> ({
                    let p1 = final(self).players@[pi as int];
                    &&& p1.hand.cnt(resource) == old(self).players@[pi as int].hand.cnt(resource)
                        + m
                    &&& p1.has_played_dev_card
                }),
            forall|q: Resource|
                q != resource ==> #[trigger] final(self).players@[pi as int].hand.cnt(q) == old(
                    self,
                ).players@[pi as int].hand.cnt(q),
            final(self).board == old(self).board,
            final(self).turn_number == old(self).turn_number,
    {
        let me = self.players[pi].id;
        let ghost g0 = *self;
        let ghost p0 = self.players@[pi as int];
        let m = self.players.len();
        let mut sum: u64 = 0;
        let mut k: usize = 0;
        while k < m
            invariant
                m == self.players@.len(),
                k <= m,
                m <= 64,
                (pi as int) < m,
                sum <= (k as int) * 0x1000000,
                self.players@.len() == g0.players@.len(),
                forall|i: int|
                    0 <= i < m ==> (#[trigger] self.players@[i]).id == g0.players@[i].id,
                forall|i: int|
                    0 <= i < m ==> (#[trigger] self.players@[i]).hand.cnt(resource)
                        <= 0x1000000,
                self.players@[pi as int] == g0.players@[pi as int],
                *self == (Game { players: self.players, ..g0 }),
            decreases m - k,
        {
            if !(k == pi) {
                let cnt = self.players[k].hand.get(resource);
                let mut q = clone_player(&self.players[k]);
                q.hand = q.hand.with(resource, 0);
                self.set_player_at(k, q);
                sum = sum + cnt as u64;
            }
            k += 1;
        }
        let mut p = clone_player(&self.players[pi]);
        let bundle = ResourceCounts::new().with(resource, sum as u32);
        proof {
            assert(p0.hand.cnt(Resource::Brick) <= 0x1000000 && p0.hand.cnt(Resource::Ore)
                <= 0x1000000 && p0.hand.cnt(Resource::Sheep) <= 0x1000000 && p0.hand.cnt(
                Resource::Wheat,
            ) <= 0x1000000 && p0.hand.cnt(Resource::Wood) <= 0x1000000);
            assert(sum <= 64 * 0x1000000);
            assert(bundle.cnt(Resource::Brick) <= sum && bundle.cnt(Resource::Ore) <= sum
                && bundle.cnt(Resource::Sheep) <= sum && bundle.cnt(Resource::Wheat) <= sum
                && bundle.cnt(Resource::Wood) <= sum);
            assert(p.hand.add_fits(bundle));
        }
        p.accrue(&bundle);
        p.use_dev_card(&crate::dev_card::DevCard::Monopoly);
        self.set_player_at(pi, p);
        Response::Ok(Payload::Monopolized(sum as u32))
    }

    #[verifier::loop_isolation(false)]
    #[verifier::rlimit(100)]
    #[verifier::spinoff_prover]
    fn do_play_road_building(&mut self, pi: usize, r1: Index, r2: Index) -> (out: Response)
        requires
            old(self).wf(),
            (pi as int) < old(self).players@.len(),
            sentinel_legal(*old(self), old(self).players@[pi as int], Request::PlayRoadBuilding(r1, r2)),
        ensures
            out != Response::Err(Error::InvalidAction),
            out is Err ==> *final(self) == *old(self),
            final(self).player_order@ == old(self).player_order@,
            final(self).victory_points_goal == old(self).victory_points_goal,
            final(self).board.board_type == old(self).board.board_type,
            final(self).players@.len() == old(self).players@.len(),
            no_roll_payload(out),
            out is Ok,
            out == Response::Ok(Payload::Null) || (out matches Response::Ok(pl) && pl matches
                Payload::GameOver(_)),
            final(self).board.road_at(r1) matches Some(rd) && rd.owner == Some(
                old(self).players@[pi as int].id,
            ),
            out == Response::Ok(Payload::Null) ==> (final(self).board.road_at(r2)
                matches Some(rd) && rd.owner == Some(old(self).players@[pi as int].id))
                && final(self).players@[pi as int].has_played_dev_card,
    {
        let me = self.players[pi].id;
        let ghost g0 = *self;
        let ghost p0 = self.players@[pi as int];
        proof {
            assert(self.board.road_at(r1) is Some);
            assert(self.board.road_at(r2) is Some);
            assert(r1 != r2);
        }
        if let Some(winner) = self.build_road_core(pi, r1) {
            return Response::Ok(Payload::GameOver(winner));
        }
        proof {
            assert forall|k: int|
                0 <= k < self.player_order@.len() implies self.has_player(
                #[trigger] self.player_order@[k],
            ) by {
                let wi = choose|wi: int|
                    0 <= wi < g0.players@.len() && (#[trigger] g0.players@[wi]).id
                        == g0.player_order@[k];
                assert(self.players@[wi].id == self.player_order@[k]);
            };
            assert(self.board.node_at(r2) == g0.board.node_at(r2));
            assert(self.board.road_at(r2) is Some);
        }
        if let Some(winner) = self.build_road_core(pi, r2) {
            return Response::Ok(Payload::GameOver(winner));
        }
        let mut p = clone_player(&self.players[pi]);
        p.use_dev_card(&crate::dev_card::DevCard::RoadBuilding);
        self.set_player_at(pi, p);
        Response::Ok(Payload::Null)
    }

    #[verifier::loop_isolation(false)]
    #[verifier::rlimit(100)]
    #[verifier::spinoff_prover]
    fn do_play_victory_point(&mut self, pi: usize) -> (out: Response)
        requires
            old(self).wf(),
            (pi as int) < old(self).players@.len(),
            sentinel_legal(*old(self), old(self).players@[pi as int], Request::PlayVictoryPoint),
        ensures
            out != Response::Err(Error::InvalidAction),
            out is Err ==> *final(self) == *old(self),
            final(self).player_order@ == old(self).player_order@,
            final(self).victory_points_goal == old(self).victory_points_goal,
            final(self).board.board_type == old(self).board.board_type,
            final(self).players@.len() == old(self).players@.len(),
            no_roll_payload(out),
            out == Response::Ok(Payload::Null),
            ({
                let p0 = old(self).players@[pi as int];
                let at = crate::player::first_playable(p0.dev_cards@, DevCard::VictoryPoint, 0);
                let p1 = final(self).players@[pi as int];
                &&& p1.victory_points.public == p0.victory_points.public + 1
                &&& p1.victory_points.private == p0.victory_points.private
                &&& p1.dev_cards@ == p0.dev_cards@.update(
                    at,
                    crate::dev_card::DevCardInHand {
                        card: DevCard::VictoryPoint,
                        state: crate::dev_card::DevCardState::AlreadyPlayed,
                    },
                )
                &&& p1.has_played_dev_card
                &&& p1.hand == p0.hand
                &&& p1.state == p0.state
            }),
            forall|i: int|
                0 <= i < old(self).players@.len() && i != pi as int
                    ==> #[trigger] final(self).players@[i] == old(self).players@[i],
            final(self).board == old(self).board,
            final(self).turn_number == old(self).turn_number,
            final(self).current_trade == old(self).current_trade,
    {
        let me = self.players[pi].id;
        let ghost g0 = *self;
        let ghost p0 = self.players@[pi as int];
        let mut p = clone_player(&self.players[pi]);
        p.victory_points.public = p.victory_points.public + 1;
        p.use_dev_card(&crate::dev_card::DevCard::VictoryPoint);
        self.set_player_at(pi, p);
        Response::Ok(Payload::Null)
    }

    #[verifier::loop_isolation(false)]
    #[verifier::rlimit(100)]
    #[verifier::spinoff_prover]
    fn do_play_year_of_plenty(&mut self, pi: usize, r1: Resource, r2: Resource) -> (out: Response)
        requires
            old(self).wf(),
            (pi as int) < old(self).players@.len(),
            sentinel_legal(*old(self), old(self).players@[pi as int], Request::PlayYearOfPlenty(r1, r2)),
        ensures
            out != Response::Err(Error::InvalidAction),
            out is Err ==> *final(self) == *old(self),
            final(self).player_order@ == old(self).player_order@,
            final(self).victory_points_goal == old(self).victory_points_goal,
            final(self).board.board_type == old(self).board.board_type,
            final(self).players@.len() == old(self).players@.len(),
            no_roll_payload(out),
            out == Response::Ok(Payload::Null),
            forall|r: Resource| #[trigger] final(self).players@[pi as int].hand.cnt(r) == old(
                self,
            ).players@[pi as int].hand.cnt(r) + (if r == r1 {
                1int
            } else {
                0int
            }) + (if r == r2 {
                1int
            } else {
                0int
            }),
            final(self).players@[pi as int].has_played_dev_card,
            forall|i: int|
                0 <= i < old(self).players@.len() && i != pi as int
                    ==> #[trigger] final(self).players@[i] == old(self).players@[i],
            final(self).board == old(self).board,
            final(self).current_trade == old(self).current_trade,
    {
        let me = self.players[pi].id;
        let ghost g0 = *self;
        let ghost p0 = self.players@[pi as int];
        let bundle = ResourceCounts::new().bump(r1, 1).bump(r2, 1);
        let mut p = clone_player(&self.players[pi]);
        proof {
            assert(bundle.cnt(Resource::Brick) <= 2 && bundle.cnt(Resource::Ore) <= 2
                && bundle.cnt(Resource::Sheep) <= 2 && bundle.cnt(Resource::Wheat) <= 2
                && bundle.cnt(Resource::Wood) <= 2);
            assert(p0.hand.cnt(Resource::Brick) <= 0x1000000 && p0.hand.cnt(Resource::Ore)
                <= 0x1000000 && p0.hand.cnt(Resource::Sheep) <= 0x1000000 && p0.hand.cnt(
                Resource::Wheat,
            ) <= 0x1000000 && p0.hand.cnt(Resource::Wood) <= 0x1000000);
            assert(p.hand.add_fits(bundle));
        }
        p.accrue(&bundle);
        p.use_dev_card(&crate::dev_card::DevCard::YearOfPlenty);
        self.set_player_at(pi, p);
        Response::Ok(Payload::Null)
    }

    #[verifier::loop_isolation(false)]
    #[verifier::rlimit(100)]
    #[verifier::spinoff_prover]
    fn do_roll_dice(&mut self, pi: usize, forced: Option<u8>, rng: &mut rand::rngs::StdRng) -> (out:
        Response)
        requires
            old(self).wf(),
            (pi as int) < old(self).players@.len(),
            sentinel_legal(*old(self), old(self).players@[pi as int], Request::RollDice(forced)),
        ensures
            out != Response::Err(Error::InvalidAction),
            out is Err ==> *final(self) == *old(self),
            final(self).player_order@ == old(self).player_order@,
            final(self).victory_points_goal == old(self).victory_points_goal,
            final(self).board.board_type == old(self).board.board_type,
            final(self).players@.len() == old(self).players@.len(),
            forced is None && old(self).round_number() <= 4 ==> (out matches Response::Ok(p)
                ==> (p matches Payload::Rolled(v) ==> v != 7)),
            out matches Response::Ok(p) ==> (p matches Payload::Rolled(v) ==> 2 <= v <= 12),
            forall|f: u8|
                forced == Some(f) ==> (out matches Response::Ok(p) ==> (p matches Payload::Rolled(
                    v,
                ) ==> v == f)),
            out is Ok,
            final(self).has_rolled,
            forall|v: u8|
                out == Response::Ok(Payload::Rolled(v)) && v == 7 ==> ({
                    &&& final(self).players@[pi as int].state
                        == PlayerState::AfterRollingSeven
                    &&& forall|i: int|
                        0 <= i < old(self).players@.len()
                            ==> (#[trigger] final(self).players@[i]).hand
                            == old(self).players@[i].hand
                    &&& forall|i: int|
                        0 <= i < old(self).players@.len()
                            ==> (#[trigger] final(self).players@[i]).num_to_discard as int == (if old(self).players@[i].hand.total()
                            > 7 {
                            old(self).players@[i].hand.total() / 2
                        } else {
                            old(self).players@[i].num_to_discard as int
                        })
                }),
            forall|v: u8|
                out == Response::Ok(Payload::Rolled(v)) && v != 7 ==> forall|i: int|
                    0 <= i < old(self).players@.len() ==> hand_grew(
                        old(self).players@[i],
                        #[trigger] final(self).players@[i],
                    ),
            forall|v: u8|
                out == Response::Ok(Payload::Rolled(v)) && v != 7 ==> forall|i: int, r: Resource|
                    0 <= i < old(self).players@.len()
                        ==> #[trigger] final(self).players@[i].hand.cnt(r) as int == old(
                        self,
                    ).players@[i].hand.cnt(r) + roll_gain(
                        old(self).board,
                        old(self).robber_index,
                        v,
                        old(self).players@[i].id,
                        r,
                    ),
    {
        let me = self.players[pi].id;
        let ghost g0 = *self;
        let ghost p0 = self.players@[pi as int];
        let roll: u8 = match forced {
            Some(v) => v,
            None => {
                let n = self.player_order.len() as u64;
                let allow_sevens = self.turn_number / n > 4;
                let mut r: u8 = crate::rng::roll_die(rng) + crate::rng::roll_die(rng);
                // resample sevens away during the early rounds; the
                // draw budget is effectively never exhausted
                let mut fuel: u32 = 1000000;
                while r == 7 && !allow_sevens && fuel > 0
                    invariant
                        2 <= r <= 12,
                    decreases fuel,
                {
                    r = crate::rng::roll_die(rng) + crate::rng::roll_die(rng);
                    fuel = fuel - 1;
                }
                if r == 7 && !allow_sevens {
                    r = 6;
                }
                r
            },
        };
        self.has_rolled = true;
        if roll == 7 {
            let m = self.players.len();
            let mut k: usize = 0;
            while k < m
                invariant
                    m == self.players@.len(),
                    k <= m,
                    (pi as int) < m,
                    self.players@.len() == g0.players@.len(),
                    forall|i: int|
                        0 <= i < m ==> (#[trigger] self.players@[i]).id
                            == g0.players@[i].id,
                    forall|i: int| k <= i < m ==> #[trigger] self.players@[i] == g0.players@[i],
                    forall|i: int|
                        0 <= i < k ==> (#[trigger] self.players@[i]).hand == g0.players@[i].hand
                            && self.players@[i].state == g0.players@[i].state
                            && self.players@[i].dev_cards@ == g0.players@[i].dev_cards@
                            && self.players@[i].num_to_discard as int == (
                        if g0.players@[i].hand.total() > 7 {
                            g0.players@[i].hand.total() / 2
                        } else {
                            g0.players@[i].num_to_discard as int
                        }),
                    self.players@[pi as int].hand == g0.players@[pi as int].hand,
                    self.players@[pi as int].state == g0.players@[pi as int].state,
                    self.players@[pi as int].dev_cards@ == g0.players@[pi as int].dev_cards@,
                    *self == (Game { players: self.players, has_rolled: true, ..g0 }),
                decreases m - k,
            {
                let total = self.players[k].hand.count_total();
                if total > 7 {
                    let mut q = clone_player(&self.players[k]);
                    q.num_to_discard = total / 2;
                    self.set_player_at(k, q);
                }
                k += 1;
            }
            let pi2 = match self.find_player(me) {
                Some(i) => i,
                None => {
                    proof {
                        let wi = choose|wi: int|
                            0 <= wi < g0.players@.len() && (#[trigger] g0.players@[wi]).id
                                == me;
                        assert(self.players@[wi].id == me);
                        assert(false);
                    }
                    return Response::Err(Error::InvalidAction);
                },
            };
            let mut p = clone_player(&self.players[pi2]);
            p.state = PlayerState::AfterRollingSeven;
            self.set_player_at(pi2, p);
            Response::Ok(Payload::Rolled(7))
        } else {
            self.distribute(roll);
            Response::Ok(Payload::Rolled(roll))
        }
    }

    #[verifier::loop_isolation(false)]
    #[verifier::rlimit(100)]
    #[verifier::spinoff_prover]
    fn do_steal_from(&mut self, pi: usize, from: PlayerId, rng: &mut rand::rngs::StdRng) -> (out:
        Response)
        requires
            old(self).wf(),
            (pi as int) < old(self).players@.len(),
            sentinel_legal(*old(self), old(self).players@[pi as int], Request::StealFrom(from)),
        ensures
            out != Response::Err(Error::InvalidAction),
            out is Err ==> *final(self) == *old(self),
            final(self).player_order@ == old(self).player_order@,
            final(self).victory_points_goal == old(self).victory_points_goal,
            final(self).board.board_type == old(self).board.board_type,
            final(self).players@.len() == old(self).players@.len(),
            no_roll_payload(out),
            out is Ok,
            final(self).players@[pi as int].state == PlayerState::Root,
            ({
                let fi = old(self).player_index(from);
                let vh = old(self).players@[fi].hand;
                &&& (vh.total() == 0 ==> out == Response::Ok(Payload::Stole(None)) && forall|
                    i: int,
                |
                    0 <= i < old(self).players@.len()
                        ==> (#[trigger] final(self).players@[i]).hand
                        == old(self).players@[i].hand)
                &&& (vh.total() > 0 ==> (out matches Response::Ok(pl) && pl matches
                    Payload::Stole(o) && o matches Some(res) && vh.cnt(res) >= 1
                    && final(self).players@[fi].hand.cnt(res) == vh.cnt(res) - 1
                    && final(self).players@[pi as int].hand.cnt(res)
                        == old(self).players@[pi as int].hand.cnt(res) + 1))
            }),
            final(self).board == old(self).board,
            final(self).turn_number == old(self).turn_number,
    {
        let me = self.players[pi].id;
        let ghost g0 = *self;
        let ghost p0 = self.players@[pi as int];
        proof {
            let t = choose|t: Index|
                #[trigger] hj_adjacent(g0.robber_index, t) && junction_owner_at(
                    g0.board,
                    t,
                ) == Some(from);
        }
        let fi = match self.find_player(from) {
            Some(i) => i,
            None => {
                proof {
                    assert(false);
                }
                return Response::Err(Error::InvalidAction);
            },
        };
        let total = self.players[fi].hand.count_total();
        if total == 0 {
            let mut p = clone_player(&self.players[pi]);
            p.state = PlayerState::Root;
            self.set_player_at(pi, p);
            return Response::Ok(Payload::Stole(None));
        }
        let h = self.players[fi].hand;
        proof {
            assert(g0.players@[fi as int].hand.cnt(Resource::Brick) <= 0x1000000
                && g0.players@[fi as int].hand.cnt(Resource::Ore) <= 0x1000000
                && g0.players@[fi as int].hand.cnt(Resource::Sheep) <= 0x1000000
                && g0.players@[fi as int].hand.cnt(Resource::Wheat) <= 0x1000000
                && g0.players@[fi as int].hand.cnt(Resource::Wood) <= 0x1000000);
            assert(total <= 5 * 0x1000000);
        }
        let k = crate::rng::pick_index(rng, total as usize) as u64;
        let stolen: Resource = if k < h.brick as u64 {
            Resource::Brick
        } else if k < h.brick as u64 + h.ore as u64 {
            Resource::Ore
        } else if k < h.brick as u64 + h.ore as u64 + h.sheep as u64 {
            Resource::Sheep
        } else if k < h.brick as u64 + h.ore as u64 + h.sheep as u64 + h.wheat as u64 {
            Resource::Wheat
        } else {
            Resource::Wood
        };
        proof {
            assert(h.cnt(stolen) >= 1);
        }
        let one = ResourceCounts::new().bump(stolen, 1);
        let mut v = clone_player(&self.players[fi]);
        proof {
            assert(one.cnt(Resource::Brick) <= h.cnt(Resource::Brick) && one.cnt(
                Resource::Ore,
            ) <= h.cnt(Resource::Ore) && one.cnt(Resource::Sheep) <= h.cnt(Resource::Sheep)
                && one.cnt(Resource::Wheat) <= h.cnt(Resource::Wheat) && one.cnt(
                Resource::Wood,
            ) <= h.cnt(Resource::Wood));
            assert(v.hand.covers(one));
        }
        v.spend(&one);
        self.set_player_at(fi, v);
        proof {
            assert(g0.players@[fi as int].id == from && g0.players@[pi as int].id == me);
            assert(fi != pi);
            assert(self.players@[pi as int] == g0.players@[pi as int]);
        }
        let mut p = clone_player(&self.players[pi]);
        proof {
            assert(p0.hand.cnt(Resource::Brick) <= 0x1000000 && p0.hand.cnt(Resource::Ore)
                <= 0x1000000 && p0.hand.cnt(Resource::Sheep) <= 0x1000000 && p0.hand.cnt(
                Resource::Wheat,
            ) <= 0x1000000 && p0.hand.cnt(Resource::Wood) <= 0x1000000);
            assert(one.cnt(Resource::Brick) <= 1 && one.cnt(Resource::Ore) <= 1 && one.cnt(
                Resource::Sheep,
            ) <= 1 && one.cnt(Resource::Wheat) <= 1 && one.cnt(Resource::Wood) <= 1);
            assert(p.hand.add_fits(one));
        }
        p.accrue(&one);
        p.state = PlayerState::Root;
        self.set_player_at(pi, p);
        Response::Ok(Payload::Stole(Some(stolen)))
    }

    /// A copy of the junction stored at `index`.
    fn get_junction_copy(&self, index: &Index) -> (out: Option<crate::junction::Junction>)
        ensures
            out == self.board.junction_at(*index),
    {
        match self.board.get_junction(index) {
            Some(j) => Some(*j),
            None => None,
        }
    }

    /// The six-junction payout of one producing hex to `pid`.
    fn junction_payout(&self, h: &Index, pid: PlayerId) -> (amt: u32)
        ensures
            amt as int == cell_j_gain(self.board, pid, *h, -3, 0) + cell_j_gain(
                self.board,
                pid,
                *h,
                -1,
                2,
            ) + cell_j_gain(self.board, pid, *h, 1, 2) + cell_j_gain(self.board, pid, *h, 3, 0)
                + cell_j_gain(self.board, pid, *h, 1, -2) + cell_j_gain(self.board, pid, *h, -1, -2),
            amt <= 12,
    {
        let mut amt: u32 = 0;
        amt = amt + self.one_junction_payout(h, pid, -3, 0);
        amt = amt + self.one_junction_payout(h, pid, -1, 2);
        amt = amt + self.one_junction_payout(h, pid, 1, 2);
        amt = amt + self.one_junction_payout(h, pid, 3, 0);
        amt = amt + self.one_junction_payout(h, pid, 1, -2);
        amt = amt + self.one_junction_payout(h, pid, -1, -2);
        amt
    }

    /// One offset's worth of `junction_payout`.
    fn one_junction_payout(&self, h: &Index, pid: PlayerId, dx: i32, dy: i32) -> (amt: u32)
        requires
            -3 <= dx <= 3,
            -3 <= dy <= 3,
        ensures
            amt as int == cell_j_gain(self.board, pid, *h, dx as int, dy as int),
            amt <= 2,
    {
        match shift_index(h, dx, dy) {
            Some(t) => match self.board.get_junction(&t) {
                Some(j) => {
                    if j.owner == Some(pid) {
                        if j.has_city {
                            2
                        } else {
                            1
                        }
                    } else {
                        0
                    }
                },
                None => 0,
            },
            None => 0,
        }
    }

    /// The full bundle one roll pays `pid`, scanned off the grid.
    #[verifier::loop_isolation(false)]
    fn payout_for(&self, roll: u8, pid: PlayerId) -> (bundle: ResourceCounts)
        requires
            self.board.nodes@.len() <= 0x100,
            forall|x: int|
                0 <= x < self.board.nodes@.len() ==> (#[trigger] self.board.nodes@[x])@.len()
                    <= 0x100,
        ensures
            forall|r: Resource| #[trigger] bundle.cnt(r) as int == roll_gain(
                self.board,
                self.robber_index,
                roll,
                pid,
                r,
            ),
            forall|r: Resource| #[trigger] bundle.cnt(r) <= 12 * 0x10000,
    {
        let mut bundle = ResourceCounts::new();
        let mut x: usize = 0;
        while x < self.board.nodes.len()
            invariant
                x <= self.board.nodes@.len(),
                forall|r: Resource| #[trigger] bundle.cnt(r) as int == grid_gain(
                    self.board,
                    self.robber_index,
                    roll,
                    pid,
                    r,
                    x as int,
                ),
                forall|r: Resource| #[trigger] bundle.cnt(r) <= 3072 * (x as int),
            decreases self.board.nodes@.len() - x,
        {
            let mut y: usize = 0;
            while y < self.board.nodes[x].len()
                invariant
                    x < self.board.nodes@.len(),
                    y <= self.board.nodes@[x as int]@.len(),
                    forall|r: Resource| #[trigger] bundle.cnt(r) as int == grid_gain(
                        self.board,
                        self.robber_index,
                        roll,
                        pid,
                        r,
                        x as int,
                    ) + row_gain(
                        self.board,
                        self.robber_index,
                        roll,
                        pid,
                        r,
                        x as int,
                        y as int,
                    ),
                    forall|r: Resource| #[trigger] bundle.cnt(r) <= 3072 * (x as int) + 12 * (
                    y as int),
                decreases self.board.nodes@[x as int]@.len() - y,
            {
                let idx = Index::new(x as u16, y as u16);
                let ghost pre = bundle;
                let cell: Option<crate::hex::HexResource> = match &self.board.nodes[x][y] {
                    Some(Node::Hex(h)) => match h.hex_type {
                        crate::hex::HexType::WithResource(hr) => Some(hr),
                        _ => None,
                    },
                    _ => None,
                };
                proof {
                    assert(self.board.node_at(idx) == self.board.nodes@[x as int]@[y as int]);
                }
                if let Some(hr) = cell {
                    if hr.roll == roll && !(idx == self.robber_index) {
                        let amount = self.junction_payout(&idx, pid);
                        proof {
                            assert(bundle.cnt(hr.resource) <= 3072 * (x as int) + 12 * (
                            y as int));
                            assert((x as int) <= 0xff);
                            assert((y as int) <= 0xff);
                            assert(3072 * (x as int) + 12 * (y as int) + 12 <= 786432);
                        }
                        let ghost preb = bundle;
                        bundle = bundle.bump(hr.resource, amount);
                        proof {
                            assert forall|r: Resource|
                                #[trigger] bundle.cnt(r) <= 3072 * (x as int) + 12 * ((y
                                + 1) as int) by {
                                if r != hr.resource {
                                    assert(bundle.cnt(r) == preb.cnt(r));
                                }
                            };
                            assert(amount as int == cell_gain(
                                self.board,
                                self.robber_index,
                                roll,
                                pid,
                                hr.resource,
                                x as int,
                                y as int,
                            ));
                            assert forall|r: Resource|
                                r != hr.resource implies cell_gain(
                                self.board,
                                self.robber_index,
                                roll,
                                pid,
                                r,
                                x as int,
                                y as int,
                            ) == 0 by {}
                        }
                    } else {
                        proof {
                            assert forall|r: Resource|
                                cell_gain(
                                    self.board,
                                    self.robber_index,
                                    roll,
                                    pid,
                                    r,
                                    x as int,
                                    y as int,
                                ) == 0 by {}
                        }
                    }
                } else {
                    proof {
                        assert forall|r: Resource|
                            cell_gain(
                                self.board,
                                self.robber_index,
                                roll,
                                pid,
                                r,
                                x as int,
                                y as int,
                            ) == 0 by {}
                    }
                }
                y += 1;
            }
            proof {
                assert(self.board.nodes@[x as int]@.len() <= 0x100);
                assert forall|r: Resource|
                    #[trigger] bundle.cnt(r) <= 3072 * ((x + 1) as int) by {
                    assert(bundle.cnt(r) <= 3072 * (x as int) + 12 * (y as int));
                    assert((y as int) <= 0x100);
                };
            }
            x += 1;
        }
        proof {
            assert((x as int) <= 0x100);
            assert forall|r: Resource| #[trigger] bundle.cnt(r) <= 12 * 0x10000 by {
                assert(bundle.cnt(r) <= 3072 * (x as int));
                assert(3072 * (x as int) <= 786432);
            };
        }
        bundle
    }

    /// Pays out one non-seven roll: every producing hex whose trigger    /// Pays out one non-seven roll: every producing hex whose trigger
    /// matches and which the robber does not sit on yields its resource
    /// to the owners of adjacent junctions, doubled for a city.
    #[verifier::loop_isolation(false)]
    fn distribute(&mut self, roll: u8)
        requires
            old(self).board.nodes_indexed(),
            old(self).board.grid_bounded(),
            old(self).board.nodes@.len() <= 0x100,
            forall|x: int|
                0 <= x < old(self).board.nodes@.len() ==> (#[trigger] old(
                    self,
                ).board.nodes@[x])@.len() <= 0x100,
            forall|i: int, r: Resource|
                0 <= i < old(self).players@.len() ==> #[trigger] old(self).players@[i].hand.cnt(r)
                    <= 0x1000000,
        ensures
            final(self).players@.len() == old(self).players@.len(),
            forall|i: int|
                0 <= i < old(self).players@.len() ==> hand_grew(
                    old(self).players@[i],
                    #[trigger] final(self).players@[i],
                ),
            forall|i: int, r: Resource|
                0 <= i < old(self).players@.len() ==> #[trigger] final(self).players@[i].hand.cnt(
                    r,
                ) as int == old(self).players@[i].hand.cnt(r) + roll_gain(
                    old(self).board,
                    old(self).robber_index,
                    roll,
                    old(self).players@[i].id,
                    r,
                ),
            *final(self) == (Game { players: final(self).players, ..*old(self) }),
    {
        let m = self.players.len();
        let mut k: usize = 0;
        while k < m
            invariant
                m == self.players@.len(),
                k <= m,
                self.players@.len() == old(self).players@.len(),
                forall|i: int|
                    0 <= i < k ==> hand_grew(
                        old(self).players@[i],
                        #[trigger] self.players@[i],
                    ),
                forall|i: int, r: Resource|
                    0 <= i < k ==> #[trigger] self.players@[i].hand.cnt(r) as int == old(
                        self,
                    ).players@[i].hand.cnt(r) + roll_gain(
                        old(self).board,
                        old(self).robber_index,
                        roll,
                        old(self).players@[i].id,
                        r,
                    ),
                forall|i: int|
                    k <= i < m ==> #[trigger] self.players@[i] == old(self).players@[i],
                *self == (Game { players: self.players, ..*old(self) }),
            decreases m - k,
        {
            let pid = self.players[k].id;
            let bundle = self.payout_for(roll, pid);
            let mut q = clone_player(&self.players[k]);
            proof {
                assert(self.players@[k as int] == old(self).players@[k as int]);
                assert(old(self).players@[k as int].hand.cnt(Resource::Brick) <= 0x1000000
                    && old(self).players@[k as int].hand.cnt(Resource::Ore) <= 0x1000000
                    && old(self).players@[k as int].hand.cnt(Resource::Sheep) <= 0x1000000
                    && old(self).players@[k as int].hand.cnt(Resource::Wheat) <= 0x1000000
                    && old(self).players@[k as int].hand.cnt(Resource::Wood) <= 0x1000000);
                assert(bundle.cnt(Resource::Brick) <= 12 * 0x10000 && bundle.cnt(Resource::Ore)
                    <= 12 * 0x10000 && bundle.cnt(Resource::Sheep) <= 12 * 0x10000 && bundle.cnt(
                    Resource::Wheat,
                ) <= 12 * 0x10000 && bundle.cnt(Resource::Wood) <= 12 * 0x10000);
                assert(q.hand.add_fits(bundle));
            }
            q.accrue(&bundle);
            self.set_player_at(k, q);
            proof {
                assert forall|r: Resource|
                    #[trigger] self.players@[k as int].hand.cnt(r) as int == old(
                    self,
                ).players@[k as int].hand.cnt(r) + roll_gain(
                    old(self).board,
                    old(self).robber_index,
                    roll,
                    old(self).players@[k as int].id,
                    r,
                ) by {
                    match r {
                        Resource::Brick => {},
                        Resource::Ore => {},
                        Resource::Sheep => {},
                        Resource::Wheat => {},
                        Resource::Wood => {},
                    }
                };
            }
            k += 1;
        }
    }
}


/// What the junction one hex-offset away pays its owner: 2 for a city,
/// 1 for a settlement, 0 for anyone else's or none.
pub open spec fn cell_j_gain(
    b: crate::board::Board,
    pid: PlayerId,
    h: Index,
    dx: int,
    dy: int,
) -> int {
    if crate::board::shift_ok(h, dx, dy) {
        match b.junction_at(crate::board::shifted(h, dx, dy)) {
            Some(j) => if j.owner == Some(pid) {
                if j.has_city {
                    2int
                } else {
                    1int
                }
            } else {
                0int
            },
            None => 0int,
        }
    } else {
        0int
    }
}

/// What the grid cell at (x, y) pays `pid` in resource `r` on this
/// roll: its six adjacent junctions' worth, when the cell is a
/// producing hex of kind `r` whose trigger matches and the robber is
/// elsewhere.
pub open spec fn cell_gain(
    b: crate::board::Board,
    robber: Index,
    roll: u8,
    pid: PlayerId,
    r: Resource,
    x: int,
    y: int,
) -> int {
    if 0 <= x < 0x10000 && 0 <= y < 0x10000 {
        let i = Index { x: x as u16, y: y as u16 };
        match b.hex_at(i) {
            Some(h) => match h.hex_type {
                crate::hex::HexType::WithResource(hr) => if hr.roll == roll && hr.resource == r
                    && i != robber {
                    cell_j_gain(b, pid, i, -3, 0) + cell_j_gain(b, pid, i, -1, 2) + cell_j_gain(
                        b,
                        pid,
                        i,
                        1,
                        2,
                    ) + cell_j_gain(b, pid, i, 3, 0) + cell_j_gain(b, pid, i, 1, -2)
                        + cell_j_gain(b, pid, i, -1, -2)
                } else {
                    0int
                },
                _ => 0int,
            },
            None => 0int,
        }
    } else {
        0int
    }
}

/// The payout of row `x`, summed over its first `y` cells.
pub open spec fn row_gain(
    b: crate::board::Board,
    robber: Index,
    roll: u8,
    pid: PlayerId,
    r: Resource,
    x: int,
    y: int,
) -> int
    decreases y,
        when y >= 0
{
    if y <= 0 {
        0
    } else {
        row_gain(b, robber, roll, pid, r, x, y - 1) + cell_gain(b, robber, roll, pid, r, x, y - 1)
    }
}

/// The payout of the first `x` full rows of the grid.
pub open spec fn grid_gain(
    b: crate::board::Board,
    robber: Index,
    roll: u8,
    pid: PlayerId,
    r: Resource,
    x: int,
) -> int
    decreases x,
        when x >= 0
{
    if x <= 0 {
        0
    } else {
        grid_gain(b, robber, roll, pid, r, x - 1) + row_gain(
            b,
            robber,
            roll,
            pid,
            r,
            x - 1,
            b.nodes@[x - 1]@.len() as int,
        )
    }
}

/// The whole board's payout to `pid` in resource `r` for this roll.
pub open spec fn roll_gain(
    b: crate::board::Board,
    robber: Index,
    roll: u8,
    pid: PlayerId,
    r: Resource,
) -> int {
    grid_gain(b, robber, roll, pid, r, b.nodes@.len() as int)
}

/// The hand only gained cards and nothing else about the player moved./// The hand only gained cards and nothing else about the player moved.
pub open spec fn hand_grew(pre: Player, post: Player) -> bool {
    &&& post.hand.covers(pre.hand)
    &&& post.id == pre.id
    &&& post.state == pre.state
    &&& post.victory_points == pre.victory_points
    &&& post.cities@ == pre.cities@
    &&& post.roads@ == pre.roads@
    &&& post.settlements@ == pre.settlements@
    &&& post.army_size == pre.army_size
    &&& post.dev_cards@ == pre.dev_cards@
    &&& post.has_played_dev_card == pre.has_played_dev_card
    &&& post.num_trades_offered_this_turn == pre.num_trades_offered_this_turn
    &&& post.num_to_discard == pre.num_to_discard
    &&& post.has_declined_trade == pre.has_declined_trade
    &&& post.bank_trade_rates == pre.bank_trade_rates
}

/// Everything of a player but the road list and the victory points is
/// unchanged.
pub open spec fn same_but_roads_and_vp(pre: Player, post: Player) -> bool {
    &&& post.id == pre.id
    &&& post.state == pre.state
    &&& post.hand == pre.hand
    &&& post.cities@ == pre.cities@
    &&& post.settlements@ == pre.settlements@
    &&& post.army_size == pre.army_size
    &&& post.dev_cards@ == pre.dev_cards@
    &&& post.has_played_dev_card == pre.has_played_dev_card
    &&& post.num_trades_offered_this_turn == pre.num_trades_offered_this_turn
    &&& post.num_to_discard == pre.num_to_discard
    &&& post.has_declined_trade == pre.has_declined_trade
    &&& post.bank_trade_rates == pre.bank_trade_rates
}

/// Victory points moved by the award rule: both tallies shift together
/// by -2, 0 or +2, and never go negative.
pub open spec fn vp_moved_by_two(pre: Player, post: Player) -> bool {
    ||| post.victory_points == pre.victory_points
    ||| (post.victory_points.public == pre.victory_points.public + 2
        && post.victory_points.private == pre.victory_points.private + 2)
    ||| (post.victory_points.public == pre.victory_points.public - 2
        && post.victory_points.private == pre.victory_points.private - 2)
}

/// Finding a player by id is unaffected when every stored id is the
/// same, position by position.
pub proof fn lemma_pidx_unchanged_ids(a: Seq<Player>, b: Seq<Player>, id: PlayerId)
    requires
        a.len() == b.len(),
        forall|i: int| 0 <= i < a.len() ==> (#[trigger] a[i]).id == (#[trigger] b[i]).id,
    ensures
        crate::game::pidx(a, id, 0) == crate::game::pidx(b, id, 0),
{
    lemma_pidx_unchanged_ids_from(a, b, id, 0);
}

proof fn lemma_pidx_unchanged_ids_from(a: Seq<Player>, b: Seq<Player>, id: PlayerId, k: int)
    requires
        a.len() == b.len(),
        0 <= k <= a.len(),
        forall|i: int| 0 <= i < a.len() ==> (#[trigger] a[i]).id == (#[trigger] b[i]).id,
    ensures
        crate::game::pidx(a, id, k) == crate::game::pidx(b, id, k),
    decreases a.len() - k,
{
    if k < a.len() && a[k].id != id {
        lemma_pidx_unchanged_ids_from(a, b, id, k + 1);
    }
}


/// The five kind-counts of a discard list sum to its length.
pub proof fn lemma_res_count_total(s: Seq<Resource>, n: int)
    requires
        0 <= n <= s.len(),
    ensures
        res_count(s, Resource::Brick, n) + res_count(s, Resource::Ore, n) + res_count(
            s,
            Resource::Sheep,
            n,
        ) + res_count(s, Resource::Wheat, n) + res_count(s, Resource::Wood, n) == n,
    decreases n,
{
    if n > 0 {
        lemma_res_count_total(s, n - 1);
    }
}

/// The payload is anything but a roll report.
pub open spec fn no_roll_payload(out: Response) -> bool {
    match out {
        Result::Ok(p) => !(p matches Payload::Rolled(_)),
        Result::Err(_) => true,
    }
}

} // verus!
