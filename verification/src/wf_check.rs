use vstd::prelude::*;

use crate::board::Node;
use crate::game::Game;
use crate::game::expected_index;
use crate::index::Index;
use crate::player::Player;
use crate::player::PlayerState;
use crate::resource::Resource;
use crate::trade::TradeWith;

verus! {

/// Whether a coordinate list holds no coordinate twice.
fn indices_distinct(v: &Vec<Index>) -> (out: bool)
    ensures
        out == v@.no_duplicates(),
{
    let mut i: usize = 0;
    while i < v.len()
        invariant
            i <= v.len(),
            forall|a: int, b: int| 0 <= a < b < i ==> v@[a] != v@[b],
        decreases v.len() - i,
    {
        let mut k: usize = 0;
        while k < i
            invariant
                k <= i,
                i < v.len(),
                forall|b: int| 0 <= b < k ==> v@[b] != v@[i as int],
            decreases i - k,
        {
            if v[k] == v[i] {
                return false;
            }
            k += 1;
        }
        i += 1;
    }
    true
}

/// Whether every coordinate of `sub` also stands in `sup`.
fn indices_subset(sub: &Vec<Index>, sup: &Vec<Index>) -> (out: bool)
    ensures
        out == forall|i: int| 0 <= i < sub@.len() ==> sup@.contains(#[trigger] sub@[i]),
{
    let mut i: usize = 0;
    while i < sub.len()
        invariant
            i <= sub.len(),
            forall|k: int| 0 <= k < i ==> sup@.contains(#[trigger] sub@[k]),
        decreases sub.len() - i,
    {
        if !crate::index::index_vec_contains(sup, sub[i]) {
            return false;
        }
        i += 1;
    }
    true
}

impl Player {
    /// Runtime check of the player's structural validity.
    pub fn check_wf(&self) -> (out: bool)
        ensures
            out ==> self.wf(),
    {
        if !indices_distinct(&self.roads) || !indices_distinct(&self.settlements)
            || !indices_distinct(&self.cities) {
            return false;
        }
        if !indices_subset(&self.cities, &self.settlements) {
            return false;
        }
        let r = &self.bank_trade_rates;
        if !(2 <= r.brick && r.brick <= 4 && 2 <= r.ore && r.ore <= 4 && 2 <= r.sheep && r.sheep
            <= 4 && 2 <= r.wheat && r.wheat <= 4 && 2 <= r.wood && r.wood <= 4) {
            return false;
        }
        let h = &self.hand;
        if !(h.brick <= 0x1000000 && h.ore <= 0x1000000 && h.sheep <= 0x1000000 && h.wheat
            <= 0x1000000 && h.wood <= 0x1000000) {
            return false;
        }
        if !(self.victory_points.public <= 0x1000000 && self.victory_points.private <= 0x1000000
            && self.victory_points.private >= self.victory_points.public && self.army_size
            <= 0x1000000) {
            return false;
        }
        proof {
            assert forall|q: Resource| 2 <= #[trigger] self.bank_trade_rates.cnt(q) <= 4 by {
                match q {
                    Resource::Brick => {},
                    Resource::Ore => {},
                    Resource::Sheep => {},
                    Resource::Wheat => {},
                    Resource::Wood => {},
                }
            };
            assert forall|q: Resource| #[trigger] self.hand.cnt(q) <= 0x1000000 by {
                match q {
                    Resource::Brick => {},
                    Resource::Ore => {},
                    Resource::Sheep => {},
                    Resource::Wheat => {},
                    Resource::Wood => {},
                }
            };
        }
        true
    }
}

impl Game {
    /// Runtime check of the match invariant that `make_move` relies on.
    /// A true answer guarantees the invariant; a caller holding a game
    /// it did not build through this library's own operations should
    /// test it before resolving moves.
    #[verifier::loop_isolation(false)]
    #[verifier::rlimit(60)]
    pub fn check_wf(&self) -> (out: bool)
        ensures
            out ==> self.wf(),
    {
        let n = self.players.len();
        if n < 2 || n > 64 {
            return false;
        }
        if self.player_order.len() != n {
            return false;
        }
        // distinct player ids, and a turn order drawn from them
        let mut i: usize = 0;
        while i < n
            invariant
                n == self.players@.len(),
                i <= n,
                forall|a: int, b: int|
                    0 <= a < b < i ==> (#[trigger] self.players@[a]).id != (
                    #[trigger] self.players@[b]).id,
            decreases n - i,
        {
            let mut k: usize = 0;
            while k < i
                invariant
                    k <= i,
                    i < n,
                    n == self.players@.len(),
                    forall|b: int|
                        0 <= b < k ==> (#[trigger] self.players@[b]).id
                            != self.players@[i as int].id,
                decreases i - k,
            {
                if self.players[k].id == self.players[i].id {
                    return false;
                }
                k += 1;
            }
            i += 1;
        }
        let mut i: usize = 0;
        while i < n
            invariant
                n == self.player_order@.len(),
                i <= n,
                forall|a: int, b: int|
                    0 <= a < b < i ==> #[trigger] self.player_order@[a]
                        != #[trigger] self.player_order@[b],
                forall|k: int| 0 <= k < i ==> self.has_player(#[trigger] self.player_order@[k]),
            decreases n - i,
        {
            let mut k: usize = 0;
            while k < i
                invariant
                    k <= i,
                    i < n,
                    n == self.player_order@.len(),
                    forall|b: int|
                        0 <= b < k ==> #[trigger] self.player_order@[b]
                            != self.player_order@[i as int],
                decreases i - k,
            {
                if self.player_order[k] == self.player_order[i] {
                    return false;
                }
                k += 1;
            }
            if self.find_player(self.player_order[i]).is_none() {
                return false;
            }
            i += 1;
        }
        // the turn pointer sits where the snake rule puts it
        if self.current_player_index >= n {
            return false;
        }
        if self.turn_number >= 0x1000000000000 {
            return false;
        }
        let t = self.turn_number;
        let nn = n as u64;
        let expected: u64 = if t < nn {
            t
        } else if t < 2 * nn {
            2 * nn - 1 - t
        } else {
            (t - 2 * nn) % nn
        };
        if self.current_player_index as u64 != expected {
            return false;
        }
        proof {
            assert(self.current_player_index as int == expected_index(
                self.turn_number as int,
                self.num_players(),
            ));
        }
        if self.victory_points_goal > 0x1000000 {
            return false;
        }
        // every player is internally valid
        let mut i: usize = 0;
        while i < n
            invariant
                n == self.players@.len(),
                i <= n,
                forall|k: int| 0 <= k < i ==> (#[trigger] self.players@[k]).wf(),
            decreases n - i,
        {
            if !self.players[i].check_wf() {
                return false;
            }
            i += 1;
        }
        // the grid is well formed and small, with every node on its own cell
        if self.nodes_well_placed() == false {
            return false;
        }
        if self.board.get_hex(&self.robber_index).is_none() {
            return false;
        }
        // junction owners are players; players' settlements are junctions
        if !self.owners_are_players() {
            return false;
        }
        let mut i: usize = 0;
        while i < n
            invariant
                n == self.players@.len(),
                i <= n,
                forall|k: int, s: int|
                    0 <= k < i && 0 <= s < (#[trigger] self.players@[k]).settlements@.len()
                        ==> self.board.junction_at(
                        #[trigger] self.players@[k].settlements@[s],
                    ) is Some,
            decreases n - i,
        {
            let p = &self.players[i];
            let mut s: usize = 0;
            while s < p.settlements.len()
                invariant
                    i < n,
                    p == &self.players@[i as int],
                    s <= p.settlements@.len(),
                    forall|w: int|
                        0 <= w < s ==> self.board.junction_at(
                            #[trigger] p.settlements@[w],
                        ) is Some,
                decreases p.settlements@.len() - s,
            {
                if self.board.get_junction(&p.settlements[s]).is_none() {
                    return false;
                }
                s += 1;
            }
            i += 1;
        }
        // the open trade, if any, is consistent
        match &self.current_trade {
            Some(t) => {
                let cur_id = self.player_order[self.current_player_index];
                let ci = match self.find_player(cur_id) {
                    Some(c) => c,
                    None => { return false },
                };
                if !matches!(self.players[ci].state, PlayerState::WaitForTradeResponses) {
                    return false;
                }
                if !self.players[ci].can_afford(&t.giving) {
                    return false;
                }
                let g = &t.giving;
                let e = &t.getting;
                if !(g.brick <= 0x1000000 && g.ore <= 0x1000000 && g.sheep <= 0x1000000 && g.wheat
                    <= 0x1000000 && g.wood <= 0x1000000 && e.brick <= 0x1000000 && e.ore
                    <= 0x1000000 && e.sheep <= 0x1000000 && e.wheat <= 0x1000000 && e.wood
                    <= 0x1000000) {
                    return false;
                }
                proof {
                    assert forall|q: Resource| #[trigger] t.giving.cnt(q) <= 0x1000000 by {
                        match q {
                            Resource::Brick => {},
                            Resource::Ore => {},
                            Resource::Sheep => {},
                            Resource::Wheat => {},
                            Resource::Wood => {},
                        }
                    };
                    assert forall|q: Resource| #[trigger] t.getting.cnt(q) <= 0x1000000 by {
                        match q {
                            Resource::Brick => {},
                            Resource::Ore => {},
                            Resource::Sheep => {},
                            Resource::Wheat => {},
                            Resource::Wood => {},
                        }
                    };
                }
                match &t.with {
                    TradeWith::Bank => { return false },
                    TradeWith::Players(ps) => {
                        let mut k: usize = 0;
                        while k < ps.len()
                            invariant
                                k <= ps@.len(),
                                cur_id == self.current_player_id(),
                                forall|b: int|
                                    0 <= b < k ==> self.has_player(#[trigger] ps@[b]) && ps@[b]
                                        != cur_id,
                            decreases ps@.len() - k,
                        {
                            if ps[k] == cur_id {
                                return false;
                            }
                            if self.find_player(ps[k]).is_none() {
                                return false;
                            }
                            k += 1;
                        }
                    },
                }
            },
            None => {},
        }
        // a player waiting on trade responses really has one open
        let cur_id = self.player_order[self.current_player_index];
        let ci = match self.find_player(cur_id) {
            Some(c) => c,
            None => { return false },
        };
        if matches!(self.players[ci].state, PlayerState::WaitForTradeResponses)
            && self.current_trade.is_none() {
            return false;
        }
        // award holders exist and still carry the transferred points
        match self.has_longest_road {
            Some(h) => {
                match self.find_player(h) {
                    Some(hi) => {
                        if self.players[hi].victory_points.public < 2 {
                            return false;
                        }
                    },
                    None => { return false },
                }
            },
            None => {},
        }
        match self.has_largest_army {
            Some(h) => {
                match self.find_player(h) {
                    Some(hi) => {
                        if self.players[hi].victory_points.public < 2 {
                            return false;
                        }
                    },
                    None => { return false },
                }
            },
            None => {},
        }
        true
    }

    /// Scans the grid: bounded rows, every stored node on its own cell.
    #[verifier::loop_isolation(false)]
    fn nodes_well_placed(&self) -> (out: bool)
        ensures
            out ==> self.board.nodes_indexed() && self.board.grid_bounded()
                && self.board.nodes@.len() <= 0x100 && (forall|x: int|
                0 <= x < self.board.nodes@.len() ==> (#[trigger] self.board.nodes@[x])@.len()
                    <= 0x100),
    {
        let b = &self.board;
        if b.nodes.len() > 0x100 {
            return false;
        }
        let mut x: usize = 0;
        while x < b.nodes.len()
            invariant
                b == &self.board,
                b.nodes@.len() <= 0x100,
                x <= b.nodes@.len(),
                forall|w: int| 0 <= w < x ==> (#[trigger] b.nodes@[w])@.len() <= 0x100,
                forall|idx: Index|
                    idx.x < x ==> match #[trigger] b.node_at(idx) {
                        Some(nd) => crate::board::node_index(nd) == idx,
                        None => true,
                    },
            decreases b.nodes@.len() - x,
        {
            if b.nodes[x].len() > 0x100 {
                return false;
            }
            let mut y: usize = 0;
            while y < b.nodes[x].len()
                invariant
                    b == &self.board,
                    x < b.nodes@.len(),
                    b.nodes@[x as int]@.len() <= 0x100,
                    y <= b.nodes@[x as int]@.len(),
                    forall|idx: Index|
                        idx.x < x || (idx.x == x && idx.y < y) ==> match #[trigger] b.node_at(
                            idx,
                        ) {
                            Some(nd) => crate::board::node_index(nd) == idx,
                            None => true,
                        },
                decreases b.nodes@[x as int]@.len() - y,
            {
                match &b.nodes[x][y] {
                    Some(nd) => {
                        let idx = match nd {
                            Node::Hex(h) => h.index,
                            Node::Junction(j) => j.index,
                            Node::Road(r) => r.index,
                        };
                        if !(idx.x as usize == x && idx.y as usize == y) {
                            return false;
                        }
                    },
                    None => {},
                }
                y += 1;
            }
            x += 1;
        }
        true
    }

    /// Scans the grid: every owned junction names a real player.
    #[verifier::loop_isolation(false)]
    fn owners_are_players(&self) -> (out: bool)
        ensures
            out ==> forall|t: Index|
                match #[trigger] self.board.junction_at(t) {
                    Some(j) => match j.owner {
                        Some(q) => self.has_player(q),
                        None => true,
                    },
                    None => true,
                },
    {
        let b = &self.board;
        let mut x: usize = 0;
        while x < b.nodes.len()
            invariant
                b == &self.board,
                x <= b.nodes@.len(),
                forall|t: Index|
                    t.x < x ==> match #[trigger] b.junction_at(t) {
                        Some(j) => match j.owner {
                            Some(q) => self.has_player(q),
                            None => true,
                        },
                        None => true,
                    },
            decreases b.nodes@.len() - x,
        {
            let mut y: usize = 0;
            while y < b.nodes[x].len()
                invariant
                    b == &self.board,
                    x < b.nodes@.len(),
                    y <= b.nodes@[x as int]@.len(),
                    forall|t: Index|
                        t.x < x || (t.x == x && t.y < y) ==> match #[trigger] b.junction_at(t) {
                            Some(j) => match j.owner {
                                Some(q) => self.has_player(q),
                                None => true,
                            },
                            None => true,
                        },
                decreases b.nodes@[x as int]@.len() - y,
            {
                match &b.nodes[x][y] {
                    Some(Node::Junction(j)) => {
                        match j.owner {
                            Some(q) => {
                                if self.find_player(q).is_none() {
                                    return false;
                                }
                            },
                            None => {},
                        }
                    },
                    _ => {},
                }
                y += 1;
            }
            x += 1;
        }
        proof {
            assert forall|t: Index|
                match #[trigger] b.junction_at(t) {
                    Some(j) => match j.owner {
                        Some(q) => self.has_player(q),
                        None => true,
                    },
                    None => true,
                } by {
                if t.x as int >= b.nodes@.len() {
                    assert(b.junction_at(t) is None);
                }
            };
        }
        true
    }
}

} // verus!
