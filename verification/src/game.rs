use vstd::prelude::*;

use crate::board::Board;
use crate::board::BoardType;
use crate::dev_card::DevCard;
use crate::dev_card::DevCardInHand;
use crate::index::Index;
use crate::player::Player;
use crate::player::PlayerId;
use crate::player::PlayerState;
use crate::player::VictoryPoints;
use crate::hex::Hex;
use crate::resource::Resource;
use crate::resource::ResourceCounts;
use crate::trade::Trade;
use crate::trade::TradeWith;

verus! {

pub const MIN_LARGEST_ARMY: u32 = 3;

pub const MIN_LONGEST_ROAD: u32 = 5;

/// Counter headroom: every count a move adds to stays below this, so
/// one move's arithmetic cannot overflow the machine types.
pub const COUNT_HEADROOM: u32 = 0x1000000;

/// Cap on the number of players in one match.  It is chosen so that a
/// monopoly, the single move that gathers counts from every player at
/// once, sums to at most MAX_PLAYERS * COUNT_HEADROOM = 2^30 cards,
/// which fits the 32-bit counts with room for the receiving hand.
pub const MAX_PLAYERS: usize = 64;

/// Two players are the same but for their hands, points, states or
/// similar scalar data: every field agrees, list fields by contents.
pub open spec fn peq(a: Player, b: Player) -> bool {
    &&& a.id == b.id
    &&& a.state == b.state
    &&& a.hand == b.hand
    &&& a.victory_points == b.victory_points
    &&& a.cities@ == b.cities@
    &&& a.roads@ == b.roads@
    &&& a.settlements@ == b.settlements@
    &&& a.army_size == b.army_size
    &&& a.dev_cards@ == b.dev_cards@
    &&& a.has_played_dev_card == b.has_played_dev_card
    &&& a.num_trades_offered_this_turn == b.num_trades_offered_this_turn
    &&& a.num_to_discard == b.num_to_discard
    &&& a.has_declined_trade == b.has_declined_trade
    &&& a.bank_trade_rates == b.bank_trade_rates
}

/// Position of the first player with this id, scanning from `k`; the
/// list's length when there is none.
pub open spec fn pidx(s: Seq<Player>, id: PlayerId, k: int) -> int
    decreases s.len() - k,
        when 0 <= k <= s.len()
{
    if k >= s.len() {
        s.len() as int
    } else if s[k].id == id {
        k
    } else {
        pidx(s, id, k + 1)
    }
}

pub proof fn lemma_pidx(s: Seq<Player>, id: PlayerId, k: int)
    requires
        0 <= k <= s.len(),
    ensures
        k <= pidx(s, id, k) <= s.len(),
        pidx(s, id, k) < s.len() ==> s[pidx(s, id, k)].id == id,
        forall|j: int| k <= j < pidx(s, id, k) ==> (#[trigger] s[j]).id != id,
        (exists|j: int| k <= j < s.len() && (#[trigger] s[j]).id == id) ==> pidx(s, id, k)
            < s.len(),
    decreases s.len() - k,
{
    if k < s.len() && s[k].id != id {
        lemma_pidx(s, id, k + 1);
    }
}

/// Where the turn pointer stands after `t` completed turns among `n`
/// players: forward through the first placement round, backward (the
/// "snake") through the second, then cycling forward forever.
pub open spec fn expected_index(t: int, n: int) -> int {
    if t < n {
        t
    } else if t < 2 * n {
        2 * n - 1 - t
    } else {
        (t - 2 * n) % n
    }
}

/// The turn pointer always stays inside the player list.
pub proof fn lemma_expected_index_in_range(t: int, n: int)
    requires
        n > 0,
        t >= 0,
    ensures
        0 <= expected_index(t, n) < n,
{
    if t >= 2 * n {
        vstd::arithmetic::div_mod::lemma_mod_bound(t - 2 * n, n);
    }
}

/// The snake order: each completed turn moves the pointer to the fixed
/// position `expected_index` dictates; during the second placement
/// round the pointer steps backward, and it returns to the first
/// player exactly when that round ends.
pub proof fn lemma_snake_order(t: int, n: int)
    requires
        n > 0,
        t >= 0,
    ensures
        n <= t < 2 * n ==> expected_index(t, n) == expected_index(t - 1, n) - (if t == n {
            0int
        } else {
            1int
        }),
        expected_index(2 * n, n) == 0 && expected_index(2 * n - 1, n) == 0,
        t >= 2 * n ==> expected_index(t, n) == (t - 2 * n) % n,
{
    if t >= 2 * n {
        vstd::arithmetic::div_mod::lemma_mod_bound(t - 2 * n, n);
    }
    assert((2 * n - 2 * n) % n == 0) by {
        assert(2 * n - 2 * n == 0);
        vstd::arithmetic::div_mod::lemma_small_mod(0, n as nat);
    }
}

/// One match: the player list, the fixed turn order, the board, the
/// draw pile, the robber, at most one open trade, and the two
/// transferable awards.
#[derive(Debug)]
pub struct Game {
    pub players: Vec<Player>,
    pub player_order: Vec<PlayerId>,
    pub current_player_index: usize,
    pub victory_points_goal: u32,
    pub dev_cards: Vec<DevCard>,
    pub board: Board,
    pub robber_index: Index,
    pub turn_number: u64,
    pub has_rolled: bool,
    pub current_trade: Option<Trade>,
    pub has_largest_army: Option<PlayerId>,
    pub has_longest_road: Option<PlayerId>,
}

impl Game {
    pub open spec fn num_players(self) -> int {
        self.player_order@.len() as int
    }

    pub open spec fn player_index(self, id: PlayerId) -> int {
        pidx(self.players@, id, 0)
    }

    pub open spec fn has_player(self, id: PlayerId) -> bool {
        exists|i: int| 0 <= i < self.players@.len() && (#[trigger] self.players@[i]).id == id
    }

    /// The player that holds this id (meaningful under `has_player`).
    pub open spec fn spec_player(self, id: PlayerId) -> Player {
        self.players@[self.player_index(id)]
    }

    pub open spec fn current_player_id(self) -> PlayerId {
        self.player_order@[self.current_player_index as int]
    }

    /// Completed rounds of turns.
    pub open spec fn round_number(self) -> int {
        (self.turn_number as int) / self.num_players()
    }

    pub open spec fn is_first_round_spec(self) -> bool {
        self.round_number() == 0
    }

    pub open spec fn is_second_round_spec(self) -> bool {
        self.round_number() == 1
    }

    /// The first player in turn order whose full score has reached the
    /// goal; the match is over exactly when there is one.
    pub open spec fn winner_from(self, k: int) -> Option<PlayerId>
        decreases self.player_order@.len() - k,
            when 0 <= k <= self.player_order@.len()
    {
        if k >= self.player_order@.len() {
            None
        } else if self.has_player(self.player_order@[k]) && self.spec_player(
            self.player_order@[k],
        ).victory_points.private >= self.victory_points_goal {
            Some(self.player_order@[k])
        } else {
            self.winner_from(k + 1)
        }
    }

    pub open spec fn spec_winner(self) -> Option<PlayerId> {
        self.winner_from(0)
    }

    /// Somebody still owes a discard from the last rolled seven.
    pub open spec fn spec_waiting_to_discard(self) -> bool {
        exists|i: int|
            0 <= i < self.players@.len() && (#[trigger] self.players@[i]).num_to_discard > 0
    }

    /// `id` could accept the open trade `t`: named, has not declined,
    /// and can cover the side the offerer asks for.
    pub open spec fn could_accept(self, t: Trade, id: PlayerId) -> bool {
        &&& self.has_player(id)
        &&& !self.spec_player(id).has_declined_trade
        &&& self.spec_player(id).hand.covers(t.getting)
    }

    pub open spec fn spec_can_anyone_accept(self) -> bool {
        match self.current_trade {
            Some(t) => match t.with {
                TradeWith::Players(ps) => exists|k: int|
                    0 <= k < ps@.len() && self.could_accept(t, #[trigger] ps@[k]),
                TradeWith::Bank => false,
            },
            None => false,
        }
    }

    /// Structural validity of a match: at least two players with
    /// distinct ids, the turn order a permutation of them with the
    /// pointer where the snake rule puts it, a well-formed board with
    /// the robber on a hex, every player internally valid, any open
    /// trade consistent, and each award holder existing with the
    /// transferred points still on their sheet.
    pub open spec fn wf(self) -> bool {
        &&& self.players@.len() >= 2
    &&& self.players@.len() <= MAX_PLAYERS
    &&& forall|i: int, j: int|
        0 <= i < j < self.players@.len() ==> (#[trigger] self.players@[i]).id != (
        #[trigger] self.players@[j]).id
    &&& self.player_order@.no_duplicates()
    &&& self.player_order@.len() == self.players@.len()
    &&& forall|k: int|
        0 <= k < self.player_order@.len() ==> self.has_player(#[trigger] self.player_order@[k])
    &&& self.current_player_index < self.player_order@.len()
    &&& self.current_player_index as int == expected_index(
        self.turn_number as int,
        self.num_players(),
    )
    &&& forall|i: int| 0 <= i < self.players@.len() ==> (#[trigger] self.players@[i]).wf()
    &&& self.turn_number < 0x1000000000000
    &&& self.victory_points_goal <= COUNT_HEADROOM
    &&& self.board.nodes_indexed()
    &&& self.board.grid_bounded()
    &&& self.board.nodes@.len() <= 0x100
    &&& forall|x: int|
        0 <= x < self.board.nodes@.len() ==> (#[trigger] self.board.nodes@[x])@.len() <= 0x100
    &&& self.board.hex_at(self.robber_index) is Some
    &&& forall|t: Index|
        match #[trigger] self.board.junction_at(t) {
            Some(j) => match j.owner {
                Some(q) => self.has_player(q),
                None => true,
            },
            None => true,
        }
    &&& forall|i: int, k: int|
        0 <= i < self.players@.len() && 0 <= k < (#[trigger] self.players@[i]).settlements@.len()
            ==> self.board.junction_at(#[trigger] self.players@[i].settlements@[k]) is Some
    &&& match self.current_trade {
        Some(t) => {
            &&& self.spec_player(self.current_player_id()).state
                == PlayerState::WaitForTradeResponses
            &&& self.spec_player(self.current_player_id()).hand.covers(t.giving)
            &&& forall|r: Resource| #[trigger] t.giving.cnt(r) <= COUNT_HEADROOM
            &&& forall|r: Resource| #[trigger] t.getting.cnt(r) <= COUNT_HEADROOM
            &&& match t.with {
                TradeWith::Players(ps) => forall|k: int|
                    0 <= k < ps@.len() ==> self.has_player(#[trigger] ps@[k]) && ps@[k]
                        != self.current_player_id(),
                TradeWith::Bank => false,
            }
        },
        None => true,
    }
    &&& (self.spec_player(self.current_player_id()).state == PlayerState::WaitForTradeResponses
        ==> self.current_trade is Some)
    &&& match self.has_longest_road {
        Some(h) => self.has_player(h) && self.spec_player(h).victory_points.public >= 2,
        None => true,
    }
    &&& match self.has_largest_army {
        Some(h) => self.has_player(h) && self.spec_player(h).victory_points.public >= 2,
        None => true,
    }
    }

    /// Index of the player holding `id` in the player list.
    pub fn find_player(&self, id: PlayerId) -> (out: Option<usize>)
        ensures
            match out {
                Some(i) => i as int == self.player_index(id) && i < self.players@.len()
                    && self.players@[i as int].id == id && self.has_player(id),
                None => !self.has_player(id),
            },
    {
        proof {
            lemma_pidx(self.players@, id, 0);
        }
        let mut i: usize = 0;
        while i < self.players.len()
            invariant
                i <= self.players@.len(),
                forall|j: int| 0 <= j < i ==> (#[trigger] self.players@[j]).id != id,
            decreases self.players@.len() - i,
        {
            if self.players[i].id == id {
                proof {
                    assert(pidx(self.players@, id, 0) == i as int) by {
                        lemma_pidx(self.players@, id, 0);
                    }
                }
                return Some(i);
            }
            i += 1;
        }
        proof {
            assert(!self.has_player(id));
        }
        None
    }

    /// The player whose turn it is.
    pub fn current_player(&self) -> (out: &Player)
        requires
            self.current_player_index < self.player_order@.len(),
            self.has_player(self.current_player_id()),
        ensures
            peq(*out, self.spec_player(self.current_player_id())),
            out.id == self.current_player_id(),
    {
        let id = self.player_order[self.current_player_index];
        let i = self.find_player(id).unwrap();
        &self.players[i]
    }

    /// The winner, when somebody has reached the victory goal: the
    /// first such player in turn order.
    #[verifier::loop_isolation(false)]
    #[must_use]
    pub fn is_game_over(&self) -> (out: Option<PlayerId>)
        requires
            forall|k: int|
                0 <= k < self.player_order@.len() ==> self.has_player(
                    #[trigger] self.player_order@[k],
                ),
        ensures
            out == self.spec_winner(),
    {
        let mut k: usize = 0;
        while k < self.player_order.len()
            invariant
                0 <= k <= self.player_order@.len(),
                self.winner_from(0) == self.winner_from(k as int),
            decreases self.player_order@.len() - k,
        {
            let id = self.player_order[k];
            let i = self.find_player(id).unwrap();
            if self.players[i].victory_points.private >= self.victory_points_goal {
                return Some(id);
            }
            k += 1;
        }
        None
    }

    /// Whether any player still owes a discard.
    pub fn waiting_for_players_to_discard(&self) -> (out: bool)
        ensures
            out == self.spec_waiting_to_discard(),
    {
        let mut i: usize = 0;
        while i < self.players.len()
            invariant
                i <= self.players@.len(),
                forall|j: int| 0 <= j < i ==> (#[trigger] self.players@[j]).num_to_discard == 0,
            decreases self.players@.len() - i,
        {
            if self.players[i].num_to_discard > 0 {
                return true;
            }
            i += 1;
        }
        false
    }

    /// Whether some named counterparty of the open trade can still
    /// accept it.
    pub fn can_anyone_accept_trade(&self) -> (out: bool)
        ensures
            out == self.spec_can_anyone_accept(),
    {
        match &self.current_trade {
            None => false,
            Some(t) => match &t.with {
                TradeWith::Bank => false,
                TradeWith::Players(ps) => {
                    let mut k: usize = 0;
                    while k < ps.len()
                        invariant
                            k <= ps@.len(),
                            self.current_trade matches Some(tr) && tr.with matches
                                TradeWith::Players(qs) && qs@ == ps@ && tr.getting == t.getting,
                            forall|j: int| 0 <= j < k ==> !self.could_accept(*t, #[trigger] ps@[j]),
                        decreases ps@.len() - k,
                    {
                        let id = ps[k];
                        if let Some(i) = self.find_player(id) {
                            let p = &self.players[i];
                            if !p.has_declined_trade && p.can_afford(&t.getting) {
                                proof {
                                    assert(self.could_accept(*t, ps@[k as int]));
                                }
                                return true;
                            }
                        }
                        k += 1;
                    }
                    false
                },
            },
        }
    }
}

/// A by-contents copy of a coordinate list's development-card twin.
fn copy_cards(v: &Vec<DevCardInHand>) -> (out: Vec<DevCardInHand>)
    ensures
        out@ == v@,
{
    let mut out: Vec<DevCardInHand> = Vec::new();
    let mut i: usize = 0;
    while i < v.len()
        invariant
            i <= v.len(),
            out@ =~= v@.take(i as int),
        decreases v.len() - i,
    {
        out.push(v[i]);
        proof {
            assert(out@ =~= v@.take(i + 1 as int));
        }
        i += 1;
    }
    proof {
        assert(out@ =~= v@);
    }
    out
}

/// A by-contents copy of a player.
pub(crate) fn clone_player(p: &Player) -> (out: Player)
    ensures
        peq(out, *p),
{
    Player {
        id: p.id,
        state: p.state,
        hand: p.hand,
        victory_points: p.victory_points,
        cities: crate::longest_road::copy_indices(&p.cities),
        roads: crate::longest_road::copy_indices(&p.roads),
        settlements: crate::longest_road::copy_indices(&p.settlements),
        army_size: p.army_size,
        dev_cards: copy_cards(&p.dev_cards),
        has_played_dev_card: p.has_played_dev_card,
        num_trades_offered_this_turn: p.num_trades_offered_this_turn,
        num_to_discard: p.num_to_discard,
        has_declined_trade: p.has_declined_trade,
        bank_trade_rates: p.bank_trade_rates,
    }
}

/// The relation between a player before and after the start-of-turn
/// reset; the player whose turn begins also moves to the root state.
pub open spec fn reset_rel(pre: Player, post: Player, new_current: PlayerId) -> bool {
    &&& post.id == pre.id
    &&& post.state == (if pre.id == new_current {
        PlayerState::Root
    } else {
        pre.state
    })
    &&& post.hand == pre.hand
    &&& post.victory_points == pre.victory_points
    &&& post.cities@ == pre.cities@
    &&& post.roads@ == pre.roads@
    &&& post.settlements@ == pre.settlements@
    &&& post.army_size == pre.army_size
    &&& post.dev_cards@ == pre.dev_cards@.map_values(
        |c: DevCardInHand| crate::player::card_refreshed(c),
    )
    &&& !post.has_played_dev_card
    &&& post.num_trades_offered_this_turn == 0
    &&& post.num_to_discard == pre.num_to_discard
    &&& !post.has_declined_trade
    &&& post.bank_trade_rates == pre.bank_trade_rates
}

impl Game {
    /// Advances to the next turn: the turn counter steps, the pointer
    /// follows the snake rule, every player's per-turn state resets,
    /// and the player now up enters the root state.
    #[verifier::loop_isolation(false)]
    pub(crate) fn increment_turn(&mut self)
        requires
            old(self).player_order@.len() >= 1,
            old(self).player_order@.len() <= 0x10000,
            old(self).player_order@.len() == old(self).players@.len(),
            forall|k: int|
                0 <= k < old(self).player_order@.len() ==> old(self).has_player(
                    #[trigger] old(self).player_order@[k],
                ),
            old(self).turn_number < 0x1000000000000,
            old(self).current_player_index as int == expected_index(
                old(self).turn_number as int,
                old(self).num_players(),
            ),
        ensures
            final(self).turn_number == old(self).turn_number + 1,
            final(self).current_player_index as int == expected_index(
                old(self).turn_number + 1,
                old(self).num_players(),
            ),
            !final(self).has_rolled,
            final(self).players@.len() == old(self).players@.len(),
            forall|i: int|
                0 <= i < old(self).players@.len() ==> reset_rel(
                    old(self).players@[i],
                    #[trigger] final(self).players@[i],
                    final(self).current_player_id(),
                ),
            final(self).player_order@ == old(self).player_order@,
            final(self).victory_points_goal == old(self).victory_points_goal,
            final(self).dev_cards@ == old(self).dev_cards@,
            final(self).board == old(self).board,
            final(self).robber_index == old(self).robber_index,
            final(self).current_trade == old(self).current_trade,
            final(self).has_largest_army == old(self).has_largest_army,
            final(self).has_longest_road == old(self).has_longest_road,
    {
        proof {
            lemma_expected_index_in_range(old(self).turn_number as int, old(self).num_players());
            lemma_expected_index_in_range(
                old(self).turn_number + 1,
                old(self).num_players(),
            );
            lemma_snake_order(old(self).turn_number + 1, old(self).num_players());
        }
        self.turn_number = self.turn_number + 1;
        let n: u64 = self.player_order.len() as u64;
        let t = self.turn_number;
        if t == n {
            // first placement round just ended: the same player goes again
        } else if t == 2 * n {
            // second placement round just ended: play begins at the start
        } else if n < t && t < 2 * n {
            self.current_player_index = self.current_player_index - 1;
        } else {
            self.current_player_index = self.current_player_index + 1;
            if self.current_player_index == self.player_order.len() {
                self.current_player_index = 0;
            }
            proof {
                let tt = old(self).turn_number as int + 1;
                let nn = old(self).num_players();
                let cur = old(self).current_player_index as int;
                if tt >= 2 * nn + 1 {
                    let x = tt - 1 - 2 * nn;
                    assert(cur == x % nn);
                    vstd::arithmetic::div_mod::lemma_add_mod_noop(x, 1, nn);
                    if nn == 1 {
                        vstd::arithmetic::div_mod::lemma_mod_bound(x + 1, nn);
                    } else {
                        vstd::arithmetic::div_mod::lemma_small_mod(1nat, nn as nat);
                        if cur + 1 < nn {
                            vstd::arithmetic::div_mod::lemma_small_mod(
                                (cur + 1) as nat,
                                nn as nat,
                            );
                        } else {
                            vstd::arithmetic::div_mod::lemma_mod_self_0(nn);
                        }
                    }
                    assert((x + 1) % nn == expected_index(tt, nn));
                }
            }
        }
        self.has_rolled = false;
        let new_cur = self.player_order[self.current_player_index];
        let m = self.players.len();
        let mut i: usize = 0;
        while i < m
            invariant
                m == self.players@.len(),
                i <= m,
                self.players@.len() == old(self).players@.len(),
                new_cur == self.current_player_id(),
                self.player_order@ == old(self).player_order@,
                self.current_player_index as int == expected_index(
                    old(self).turn_number + 1,
                    old(self).num_players(),
                ),
                self.turn_number == old(self).turn_number + 1,
                !self.has_rolled,
                self.victory_points_goal == old(self).victory_points_goal,
                self.dev_cards@ == old(self).dev_cards@,
                self.board == old(self).board,
                self.robber_index == old(self).robber_index,
                self.current_trade == old(self).current_trade,
                self.has_largest_army == old(self).has_largest_army,
                self.has_longest_road == old(self).has_longest_road,
                self.current_player_index < self.player_order@.len(),
                forall|j: int|
                    0 <= j < i ==> reset_rel(
                        old(self).players@[j],
                        #[trigger] self.players@[j],
                        new_cur,
                    ),
                forall|j: int| i <= j < m ==> #[trigger] self.players@[j] == old(self).players@[j],
            decreases m - i,
        {
            let mut p = clone_player(&self.players[i]);
            p.reset_for_new_turn();
            if p.id == new_cur {
                p.state = PlayerState::Root;
            }
            self.players.set(i, p);
            i += 1;
        }
    }

    /// The award arithmetic leaves every field alone but the victory
    /// points.
    pub open spec fn same_but_vp(pre: Player, post: Player) -> bool {
        &&& post.id == pre.id
        &&& post.state == pre.state
        &&& post.hand == pre.hand
        &&& post.cities@ == pre.cities@
        &&& post.roads@ == pre.roads@
        &&& post.settlements@ == pre.settlements@
        &&& post.army_size == pre.army_size
        &&& post.dev_cards@ == pre.dev_cards@
        &&& post.has_played_dev_card == pre.has_played_dev_card
        &&& post.num_trades_offered_this_turn == pre.num_trades_offered_this_turn
        &&& post.num_to_discard == pre.num_to_discard
        &&& post.has_declined_trade == pre.has_declined_trade
        &&& post.bank_trade_rates == pre.bank_trade_rates
    }

    /// The contender's computed value for the longest-road award.
    pub open spec fn road_value_of(self, id: PlayerId) -> nat {
        crate::longest_road::lr_best(self.board, id, self.spec_player(id).roads@, 0)
    }

    /// Whether a contender with value `mine` takes an award from the
    /// current holder: the fixed minimum must be met, and a rival
    /// incumbent keeps the award on ties.
    pub open spec fn award_taken(
        holder: Option<PlayerId>,
        me: PlayerId,
        mine: int,
        incumbent: int,
        min: int,
    ) -> bool {
        &&& mine >= min
        &&& match holder {
            None => true,
            Some(h) => h != me && incumbent < mine,
        }
    }

    /// Everything but the players and one award field is unchanged.
    pub open spec fn same_but_players_and_awards(pre: Game, post: Game) -> bool {
        &&& post.player_order@ == pre.player_order@
        &&& post.current_player_index == pre.current_player_index
        &&& post.victory_points_goal == pre.victory_points_goal
        &&& post.dev_cards@ == pre.dev_cards@
        &&& post.board == pre.board
        &&& post.robber_index == pre.robber_index
        &&& post.turn_number == pre.turn_number
        &&& post.has_rolled == pre.has_rolled
        &&& post.current_trade == pre.current_trade
        &&& post.players@.len() == pre.players@.len()
    }

    /// The two-player transfer an award causes: the new holder gains 2
    /// public and 2 private points, the old rival holder (when there is
    /// one) loses the same, and nobody else moves.
    pub open spec fn award_transfer_rel(
        pre: Game,
        post: Game,
        me: PlayerId,
        holder: Option<PlayerId>,
    ) -> bool {
        let im = pre.player_index(me);
        &&& Game::same_but_vp(pre.players@[im], post.players@[im])
        &&& post.players@[im].victory_points.public == pre.players@[im].victory_points.public + 2
        &&& post.players@[im].victory_points.private == pre.players@[im].victory_points.private + 2
        &&& match holder {
            None => forall|j: int|
                0 <= j < pre.players@.len() && j != im ==> #[trigger] post.players@[j]
                    == pre.players@[j],
            Some(h) => {
                let ih = pre.player_index(h);
                &&& Game::same_but_vp(pre.players@[ih], post.players@[ih])
                &&& post.players@[ih].victory_points.public == pre.players@[ih].victory_points.public
                    - 2
                &&& post.players@[ih].victory_points.private
                    == pre.players@[ih].victory_points.private - 2
                &&& forall|j: int|
                    0 <= j < pre.players@.len() && j != im && j != ih
                        ==> #[trigger] post.players@[j] == pre.players@[j]
            },
        }
    }

    /// Longest-road award recomputation after `me` built or cut roads.
    /// `me` becomes the holder exactly when their chain meets the
    /// five-road minimum and strictly exceeds the incumbent's current
    /// chain (ties keep the incumbent; the incumbent never dethrones
    /// themselves).  On a transfer, 2 public and 2 private points move.
    #[must_use]
    pub fn recalc_longest_road(&mut self, me: PlayerId) -> (took: bool)
        requires
            old(self).has_player(me),
            forall|i: int, j: int|
                0 <= i < j < old(self).players@.len() ==> (#[trigger] old(self).players@[i]).id != (
                #[trigger] old(self).players@[j]).id,
            forall|i: int|
                0 <= i < old(self).players@.len() ==> (#[trigger] old(self).players@[i]).roads@.no_duplicates()
                    && old(self).players@[i].victory_points.public <= 0x2000000
                    && old(self).players@[i].victory_points.private <= 0x2000000,
            match old(self).has_longest_road {
                Some(h) => old(self).has_player(h) && old(self).spec_player(
                    h,
                ).victory_points.public >= 2 && old(self).spec_player(h).victory_points.private
                    >= 2,
                None => true,
            },
        ensures
            took == Game::award_taken(
                old(self).has_longest_road,
                me,
                old(self).road_value_of(me) as int,
                match old(self).has_longest_road {
                    Some(h) => old(self).road_value_of(h) as int,
                    None => 0,
                },
                MIN_LONGEST_ROAD as int,
            ),
            !took ==> *final(self) == *old(self),
            took ==> {
                &&& Game::same_but_players_and_awards(*old(self), *final(self))
                &&& final(self).has_largest_army == old(self).has_largest_army
                &&& final(self).has_longest_road == Some(me)
                &&& Game::award_transfer_rel(
                    *old(self),
                    *final(self),
                    me,
                    old(self).has_longest_road,
                )
            },
    {
        let im = self.find_player(me).unwrap();
        let my_value = self.board.longest_road(me, &self.players[im].roads);
        if my_value < MIN_LONGEST_ROAD as usize {
            return false;
        }
        let mut dethroned: Option<usize> = None;
        match self.has_longest_road {
            None => {},
            Some(other) => {
                if other == me {
                    return false;
                }
                let ih = self.find_player(other).unwrap();
                let other_value = self.board.longest_road(other, &self.players[ih].roads);
                if other_value >= my_value {
                    return false;
                }
                dethroned = Some(ih);
            },
        }
        if let Some(ih) = dethroned {
            let mut loser = clone_player(&self.players[ih]);
            loser.victory_points.public = loser.victory_points.public - 2;
            loser.victory_points.private = loser.victory_points.private - 2;
            self.set_player_at(ih, loser);
        }
        proof {
            lemma_pidx(old(self).players@, me, 0);
        }
        let mut winner = clone_player(&self.players[im]);
        winner.victory_points.public = winner.victory_points.public + 2;
        winner.victory_points.private = winner.victory_points.private + 2;
        self.set_player_at(im, winner);
        self.has_longest_road = Some(me);
        true
    }

    /// The contender's army size, the value the largest-army award
    /// compares.
    pub open spec fn army_value_of(self, id: PlayerId) -> nat {
        self.spec_player(id).army_size as nat
    }

    /// Largest-army award recomputation after `me` played a knight.
    /// Same transfer rule as the road award, with the three-knight
    /// minimum.
    #[must_use]
    pub fn recalc_largest_army(&mut self, me: PlayerId) -> (took: bool)
        requires
            old(self).has_player(me),
            forall|i: int, j: int|
                0 <= i < j < old(self).players@.len() ==> (#[trigger] old(self).players@[i]).id != (
                #[trigger] old(self).players@[j]).id,
            forall|i: int|
                0 <= i < old(self).players@.len() ==> (#[trigger] old(self).players@[i]).roads@.no_duplicates()
                    && old(self).players@[i].victory_points.public <= 0x2000000
                    && old(self).players@[i].victory_points.private <= 0x2000000,
            match old(self).has_largest_army {
                Some(h) => old(self).has_player(h) && old(self).spec_player(
                    h,
                ).victory_points.public >= 2 && old(self).spec_player(h).victory_points.private
                    >= 2,
                None => true,
            },
        ensures
            took == Game::award_taken(
                old(self).has_largest_army,
                me,
                old(self).army_value_of(me) as int,
                match old(self).has_largest_army {
                    Some(h) => old(self).army_value_of(h) as int,
                    None => 0,
                },
                MIN_LARGEST_ARMY as int,
            ),
            !took ==> *final(self) == *old(self),
            took ==> {
                &&& Game::same_but_players_and_awards(*old(self), *final(self))
                &&& final(self).has_longest_road == old(self).has_longest_road
                &&& final(self).has_largest_army == Some(me)
                &&& Game::award_transfer_rel(
                    *old(self),
                    *final(self),
                    me,
                    old(self).has_largest_army,
                )
            },
    {
        let im = self.find_player(me).unwrap();
        let my_value = self.players[im].army_size;
        if my_value < MIN_LARGEST_ARMY {
            return false;
        }
        let mut dethroned: Option<usize> = None;
        match self.has_largest_army {
            None => {},
            Some(other) => {
                if other == me {
                    return false;
                }
                let ih = self.find_player(other).unwrap();
                if self.players[ih].army_size >= my_value {
                    return false;
                }
                dethroned = Some(ih);
            },
        }
        if let Some(ih) = dethroned {
            let mut loser = clone_player(&self.players[ih]);
            loser.victory_points.public = loser.victory_points.public - 2;
            loser.victory_points.private = loser.victory_points.private - 2;
            self.set_player_at(ih, loser);
        }
        proof {
            lemma_pidx(old(self).players@, me, 0);
        }
        let mut winner = clone_player(&self.players[im]);
        winner.victory_points.public = winner.victory_points.public + 2;
        winner.victory_points.private = winner.victory_points.private + 2;
        self.set_player_at(im, winner);
        self.has_largest_army = Some(me);
        true
    }

    /// Replaces the stored player at list position `i`.
    pub(crate) fn set_player_at(&mut self, i: usize, p: Player)
        requires
            (i as int) < old(self).players@.len(),
        ensures
            final(self).players@ == old(self).players@.update(i as int, p),
            *final(self) == (Game { players: final(self).players, ..*old(self) }),
    {
        self.players.set(i, p);
    }
}

/// The distinct ids of a list, each kept at its first occurrence.
pub open spec fn dedup_ids(s: Seq<PlayerId>) -> Seq<PlayerId>
    decreases s.len(),
{
    if s.len() == 0 {
        Seq::empty()
    } else {
        let rest = dedup_ids(s.drop_last());
        if rest.contains(s.last()) {
            rest
        } else {
            rest.push(s.last())
        }
    }
}

pub proof fn lemma_dedup_ids(s: Seq<PlayerId>)
    ensures
        dedup_ids(s).no_duplicates(),
        dedup_ids(s).len() <= s.len(),
        forall|x: PlayerId| #[trigger] dedup_ids(s).contains(x) <==> s.contains(x),
    decreases s.len(),
{
    broadcast use vstd::seq_lib::lemma_seq_contains_after_push;

    if s.len() > 0 {
        lemma_dedup_ids(s.drop_last());
        let rest = dedup_ids(s.drop_last());
        assert forall|x: PlayerId| #[trigger] dedup_ids(s).contains(x) implies s.contains(x) by {
            if rest.contains(x) {
                assert(s.drop_last().contains(x));
                let i = choose|i: int| 0 <= i < s.drop_last().len() && s.drop_last()[i] == x;
                assert(s[i] == x);
            } else {
                assert(s[s.len() - 1] == x);
            }
        };
        assert forall|x: PlayerId| s.contains(x) implies #[trigger] dedup_ids(s).contains(x) by {
            let i = choose|i: int| 0 <= i < s.len() && s[i] == x;
            if i < s.len() - 1 {
                assert(s.drop_last()[i] == x);
            } else {
                assert(s.last() == x);
            }
        };
        if !rest.contains(s.last()) {
            assert forall|i: int, j: int|
                0 <= i < dedup_ids(s).len() && 0 <= j < dedup_ids(s).len() && i
                    != j implies dedup_ids(s)[i] != dedup_ids(s)[j] by {
                if i < rest.len() && j < rest.len() {
                } else if i < rest.len() {
                    assert(rest.contains(rest[i]));
                } else if j < rest.len() {
                    assert(rest.contains(rest[j]));
                }
            };
        }
    }
}

/// Whether `v` holds the id `x`.
pub(crate) fn id_vec_contains(v: &Vec<PlayerId>, x: PlayerId) -> (found: bool)
    ensures
        found == v@.contains(x),
{
    let mut i: usize = 0;
    while i < v.len()
        invariant
            i <= v.len(),
            forall|k: int| 0 <= k < i ==> v@[k] != x,
        decreases v.len() - i,
    {
        if v[i] == x {
            return true;
        }
        i += 1;
    }
    false
}

/// A by-contents copy of an id list.
fn copy_ids(v: &Vec<PlayerId>) -> (out: Vec<PlayerId>)
    ensures
        out@ == v@,
{
    let mut out: Vec<PlayerId> = Vec::new();
    let mut i: usize = 0;
    while i < v.len()
        invariant
            i <= v.len(),
            out@ =~= v@.take(i as int),
        decreases v.len() - i,
    {
        out.push(v[i]);
        proof {
            assert(out@ =~= v@.take(i + 1 as int));
        }
        i += 1;
    }
    proof {
        assert(out@ =~= v@);
    }
    out
}

/// A fresh participant: everything empty, waiting, with the default
/// bank rates; `st` is their starting state.
pub open spec fn fresh_player_rel(p: Player, id: PlayerId, st: PlayerState) -> bool {
    &&& p.id == id
    &&& p.state == st
    &&& p.hand == ResourceCounts::zero()
    &&& p.victory_points == (VictoryPoints { public: 0, private: 0 })
    &&& p.cities@ == Seq::<Index>::empty()
    &&& p.roads@ == Seq::<Index>::empty()
    &&& p.settlements@ == Seq::<Index>::empty()
    &&& p.army_size == 0
    &&& p.dev_cards@ == Seq::<DevCardInHand>::empty()
    &&& !p.has_played_dev_card
    &&& p.num_trades_offered_this_turn == 0
    &&& p.num_to_discard == 0
    &&& !p.has_declined_trade
    &&& forall|r: Resource| #[trigger] p.bank_trade_rates.cnt(r) == 4
}

impl Game {
    /// A new match from a set of player ids (duplicates collapse), a
    /// board layout and the victory goal.  There is no match with
    /// fewer than two distinct players.  The turn order is a shuffle
    /// of the ids; the robber starts on the desert; the first player
    /// in the order starts in the root state, everyone else waits.
    #[verifier::loop_isolation(false)]
    pub fn new(
        player_ids: Vec<PlayerId>,
        board_type: BoardType,
        victory_points_goal: u8,
        rng: &mut rand::rngs::StdRng,
    ) -> (out: Option<Game>)
        requires
            player_ids@.len() <= MAX_PLAYERS,
        ensures
            (out is Some) <==> dedup_ids(player_ids@).len() >= 2,
            match out {
                Some(g) => {
                    &&& g.wf()
                    &&& g.turn_number == 0
                    &&& g.current_player_index == 0
                    &&& !g.has_rolled
                    &&& g.current_trade is None
                    &&& g.has_largest_army is None
                    &&& g.has_longest_road is None
                    &&& g.victory_points_goal == victory_points_goal
                    &&& g.board.board_type == board_type
                    &&& g.board.junctions_fresh()
                    &&& g.board.roads_unowned()
                    &&& g.board.hex_at(g.robber_index) matches Some(h) && h.hex_type
                        == crate::hex::HexType::Desert
                    &&& g.dev_cards@.to_multiset() == crate::boards::standard_dev_deck(
                    ).to_multiset()
                    &&& g.player_order@.to_multiset() == dedup_ids(player_ids@).to_multiset()
                    &&& g.players@.len() == dedup_ids(player_ids@).len()
                    &&& forall|i: int|
                        0 <= i < g.players@.len() ==> fresh_player_rel(
                            #[trigger] g.players@[i],
                            dedup_ids(player_ids@)[i],
                            if dedup_ids(player_ids@)[i] == g.current_player_id() {
                                PlayerState::Root
                            } else {
                                PlayerState::WaitForTurn
                            },
                        )
                },
                None => true,
            },
    {
        let mut distinct: Vec<PlayerId> = Vec::new();
        let n_in = player_ids.len();
        let mut i: usize = 0;
        while i < n_in
            invariant
                n_in == player_ids@.len(),
                i <= n_in,
                distinct@ == dedup_ids(player_ids@.take(i as int)),
            decreases n_in - i,
        {
            proof {
                assert(player_ids@.take(i + 1 as int).drop_last() =~= player_ids@.take(i as int));
                assert(player_ids@.take(i + 1 as int).last() == player_ids@[i as int]);
            }
            if !id_vec_contains(&distinct, player_ids[i]) {
                distinct.push(player_ids[i]);
            }
            i += 1;
        }
        proof {
            assert(player_ids@.take(n_in as int) =~= player_ids@);
            lemma_dedup_ids(player_ids@);
        }
        if distinct.len() < 2 {
            return None;
        }
        let ghost dids = dedup_ids(player_ids@);

        let mut player_order = copy_ids(&distinct);
        crate::rng::shuffle_vec(rng, &mut player_order);
        proof {
            distinct@.lemma_multiset_has_no_duplicates();
            assert forall|x: PlayerId| player_order@.to_multiset().contains(x) implies
                player_order@.to_multiset().count(x) == 1 by {
                assert(distinct@.to_multiset().count(x) == player_order@.to_multiset().count(x));
            };
            player_order@.lemma_multiset_has_no_duplicates_conv();
            distinct@.to_multiset_ensures();
            player_order@.to_multiset_ensures();
            assert(player_order@.len() == distinct@.len());
        }

        let mut players: Vec<Player> = Vec::new();
        let mut i: usize = 0;
        while i < distinct.len()
            invariant
                i <= distinct@.len(),
                players@.len() == i,
                forall|j: int|
                    0 <= j < i ==> fresh_player_rel(
                        #[trigger] players@[j],
                        distinct@[j],
                        PlayerState::WaitForTurn,
                    ),
            decreases distinct@.len() - i,
        {
            players.push(Player::new(distinct[i]));
            i += 1;
        }

        let board = crate::board::Board::new(board_type, rng);
        let deck = crate::boards::dev_cards(board_type, rng);

        // The robber anchors on the desert, which the factory
        // guarantees exists.
        let hexes = board.hexes();
        let mut robber_index: Option<Index> = None;
        let mut i: usize = 0;
        while i < hexes.len()
            invariant
                i <= hexes@.len(),
                board.nodes_indexed(),
                board.grid_bounded(),
                forall|h: Hex| #[trigger] hexes@.contains(h) <==> board.hex_at(h.index) == Some(h),
                match robber_index {
                    Some(ri) => board.hex_at(ri) matches Some(h) && h.hex_type
                        == crate::hex::HexType::Desert,
                    None => forall|k: int|
                        0 <= k < i ==> (#[trigger] hexes@[k]).hex_type
                            != crate::hex::HexType::Desert,
                },
            decreases hexes@.len() - i,
        {
            if matches!(hexes[i].hex_type, crate::hex::HexType::Desert) {
                proof {
                    assert(hexes@.contains(hexes@[i as int]));
                }
                robber_index = Some(hexes[i].index);
                break ;
            }
            i += 1;
        }
        let robber_index = match robber_index {
            Some(ri) => ri,
            None => {
                proof {
                    let w = choose|w: Index|
                        (#[trigger] board.hex_at(w)) matches Some(h) && h.hex_type
                            == crate::hex::HexType::Desert;
                    let hw = board.hex_at(w).unwrap();
                    assert(hw.index == w);
                    assert(hexes@.contains(hw));
                    let k = choose|k: int| 0 <= k < hexes@.len() && hexes@[k] == hw;
                    assert(hexes@[k].hex_type != crate::hex::HexType::Desert);
                    assert(false);
                }
                // Unreachable: the factory always places a desert, and
                // the scan above would have found it.
                Index::new(0, 0)
            },
        };

        let mut g = Game {
            players,
            player_order,
            current_player_index: 0,
            victory_points_goal: victory_points_goal as u32,
            dev_cards: deck,
            board,
            robber_index,
            turn_number: 0,
            has_rolled: false,
            current_trade: None,
            has_largest_army: None,
            has_longest_road: None,
        };

        // The player opening the match starts in the root state.
        let first = g.player_order[0];
        proof {
            assert(g.player_order@.contains(first));
            assert(distinct@.to_multiset().count(first) > 0);
            assert(distinct@.contains(first));
            let w = choose|w: int| 0 <= w < distinct@.len() && distinct@[w] == first;
            assert(g.players@[w].id == first);
        }
        let fi = g.find_player(first).unwrap();
        let mut p = clone_player(&g.players[fi]);
        p.state = PlayerState::Root;
        g.set_player_at(fi, p);

        proof {
            assert forall|k: int|
                0 <= k < g.player_order@.len() implies g.has_player(
                #[trigger] g.player_order@[k],
            ) by {
                assert(g.player_order@.contains(g.player_order@[k]));
                assert(distinct@.to_multiset().count(g.player_order@[k]) > 0);
                assert(distinct@.contains(g.player_order@[k]));
                let w = choose|w: int| 0 <= w < distinct@.len() && distinct@[w]
                    == g.player_order@[k];
                assert(g.players@[w].id == g.player_order@[k]);
            };
            assert forall|i2: int, j2: int|
                0 <= i2 < j2 < g.players@.len() implies (#[trigger] g.players@[i2]).id != (
            #[trigger] g.players@[j2]).id by {
                assert(distinct@[i2] != distinct@[j2]);
            };
            assert(expected_index(0, g.num_players()) == 0);
            assert forall|i2: int| 0 <= i2 < g.players@.len() implies (
            #[trigger] g.players@[i2]).wf() by {
                assert(fresh_player_rel(
                    g.players@[i2],
                    distinct@[i2],
                    g.players@[i2].state,
                ) || i2 == fi as int);
            };
        }
        proof {
            assert(g.turn_number == 0);
            assert(g.current_player_index == 0);
            assert(g.victory_points_goal == victory_points_goal);
            assert(g.board.board_type == board_type);
            assert(g.board.junctions_fresh());
            assert(g.board.roads_unowned());
            assert(g.board.hex_at(g.robber_index) matches Some(h) && h.hex_type
                == crate::hex::HexType::Desert);
            assert(g.dev_cards@.to_multiset() == crate::boards::standard_dev_deck().to_multiset());
            assert(g.player_order@.to_multiset() == dids.to_multiset());
            assert(g.players@.len() == dids.len());
            assert forall|i2: int|
                0 <= i2 < g.players@.len() implies fresh_player_rel(
                #[trigger] g.players@[i2],
                dids[i2],
                if dids[i2] == g.current_player_id() {
                    PlayerState::Root
                } else {
                    PlayerState::WaitForTurn
                },
            ) by {
                assert(dids[i2] == distinct@[i2]);
                if i2 != fi as int {
                    assert(distinct@[i2] != first);
                }
            };
            assert(g.players@.len() >= 2);
            assert(g.players@.len() <= 0x10000);
            assert(g.player_order@.no_duplicates());
            assert(g.player_order@.len() == g.players@.len());
            assert(g.current_player_index < g.player_order@.len());
            assert(g.current_player_index as int == expected_index(
                g.turn_number as int,
                g.num_players(),
            ));
            assert(g.turn_number < 0x1000000000000);
            assert(g.victory_points_goal <= COUNT_HEADROOM);
            assert(g.board.nodes_indexed());
            assert(g.board.grid_bounded());
            assert(g.board.hex_at(g.robber_index) is Some);
            assert(g.current_trade is None);
            lemma_pidx(g.players@, first, 0);
            assert(g.players@[fi as int].id == first);
            let pi = g.player_index(first);
            assert(pi < g.players@.len() && g.players@[pi].id == first);
            assert(pi == fi as int) by {
                if pi < fi as int {
                    assert(g.players@[pi].id != g.players@[fi as int].id);
                } else if pi > fi as int {
                    assert(g.players@[fi as int].id != g.players@[pi].id);
                }
            }
            assert(g.current_player_id() == first);
            assert(g.spec_player(g.current_player_id()).state == PlayerState::Root);
            assert(g.has_longest_road is None);
            assert(g.has_largest_army is None);
            assert forall|t: Index|
                match #[trigger] g.board.junction_at(t) {
                    Some(j) => match j.owner {
                        Some(q) => g.has_player(q),
                        None => true,
                    },
                    None => true,
                } by {
                assert(g.board.junction_fresh_at(t));
            };
            assert forall|i2: int, k2: int|
                0 <= i2 < g.players@.len() && 0 <= k2 < (
            #[trigger] g.players@[i2]).settlements@.len() implies g.board.junction_at(
                #[trigger] g.players@[i2].settlements@[k2],
            ) is Some by {
                assert(g.players@[i2].settlements@.len() == 0);
            };
            assert(g.wf());
        }
        Some(g)
    }
}

} // verus!
