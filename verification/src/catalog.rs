use vstd::prelude::*;

use crate::action::Request;
use crate::board::Board;
use crate::board::jr_adjacent;
use crate::dev_card::DevCard;
use crate::dev_card::DevCardState;
use crate::game::Game;
use crate::index::Index;
use crate::junction::Junction;
use crate::player::MAX_TRADES_PER_TURN;
use crate::player::Player;
use crate::player::PlayerId;
use crate::player::PlayerState;
use crate::resource::Resource;
use crate::resource::ResourceCounts;
use crate::road::Road;
use crate::trade::TradeWith;

verus! {

broadcast use vstd::seq_lib::lemma_seq_contains_after_push;

/// The road slot at `r` exists and nobody owns it yet.
pub open spec fn road_open_at(b: Board, r: Index) -> bool {
    match b.road_at(r) {
        Some(rd) => rd.owner is None,
        None => false,
    }
}

/// Road slot `r` can be walked to from road slot `o` through one
/// intervening junction that is not a rival's.
pub open spec fn reachable_thru(b: Board, me: PlayerId, o: Index, r: Index) -> bool {
    exists|j: Index|
        #[trigger] jr_adjacent(o, j) && b.spec_can_build_road_thru(me, j) && jr_adjacent(j, r)
}

/// The empty road slots one step beyond slot `o`, walking as `me`.
pub open spec fn spec_reachable_from(b: Board, me: PlayerId, o: Index, r: Index) -> bool {
    road_open_at(b, r) && reachable_thru(b, me, o, r)
}

/// The empty road slots `p` may build on: adjacent to an owned road
/// through a friendly junction, or directly adjacent to an owned
/// settlement.
pub open spec fn spec_reachable(b: Board, p: Player, r: Index) -> bool {
    road_open_at(b, r) && ((exists|o: Index|
        #[trigger] p.roads@.contains(o) && reachable_thru(b, p.id, o, r)) || (exists|s: Index|
        #[trigger] p.settlements@.contains(s) && jr_adjacent(s, r)))
}

/// The ordered pairs legal for the two-road development card: both
/// reachable now, or the second reachable only once the first is laid.
pub open spec fn spec_doubly(b: Board, p: Player, r1: Index, r2: Index) -> bool {
    spec_reachable(b, p, r1) && ((spec_reachable(b, p, r2) && r2 != r1) || (!spec_reachable(
        b,
        p,
        r2,
    ) && spec_reachable_from(b, p.id, r1, r2)))
}

/// One walkable step beyond junction `jv`, used while accumulating the
/// reachable set.
pub open spec fn step_ok(b: Board, me: PlayerId, jv: Junction, r: Index) -> bool {
    b.spec_can_build_road_thru(me, jv.index) && jr_adjacent(jv.index, r) && road_open_at(b, r)
}

pub open spec fn reach_prefix(
    b: Board,
    me: PlayerId,
    js: Seq<Junction>,
    i: int,
    r: Index,
) -> bool {
    exists|ji: int| 0 <= ji < i && step_ok(b, me, #[trigger] js[ji], r)
}

impl Player {
    /// The empty road slots one step beyond road slot `road`.
    #[verifier::loop_isolation(false)]
    pub fn reachable_from(&self, road: &Index, board: &Board) -> (out: Vec<Index>)
        requires
            board.nodes_indexed(),
        ensures
            forall|r: Index| #[trigger] out@.contains(r) <==> spec_reachable_from(
                *board,
                self.id,
                *road,
                r,
            ),
            out@.no_duplicates(),
    {
        let js = board.junction_neighbors_of_road(road);
        let mut out: Vec<Index> = Vec::new();
        let mut i: usize = 0;
        while i < js.len()
            invariant
                forall|r: Index| #[trigger] out@.contains(r) <==> reach_prefix(
                    *board,
                    self.id,
                    js@,
                    i as int,
                    r,
                ),
                out@.no_duplicates(),
                i <= js@.len(),
            decreases js@.len() - i,
        {
            let jv = js[i];
            if board.can_build_road_thru(&self.id, &jv.index) {
                let rs = board.road_neighbors_of_junction(&jv.index);
                let mut k: usize = 0;
                while k < rs.len()
                    invariant
                        0 <= k <= rs@.len(),
                        out@.no_duplicates(),
                        forall|r: Index| #[trigger] out@.contains(r) <==> reach_prefix(
                            *board,
                            self.id,
                            js@,
                            i as int,
                            r,
                        ) || (exists|ri: int|
                            0 <= ri < k && (#[trigger] rs@[ri]).owner is None && rs@[ri].index
                                == r),
                    decreases rs@.len() - k,
                {
                    let rd = rs[k];
                    if rd.owner.is_none() {
                        crate::index::index_vec_insert(&mut out, rd.index);
                        proof {
                            assert(rs@[k as int].owner is None && rs@[k as int].index == rd.index);
                        }
                    }
                    k += 1;
                }
                proof {
                    assert forall|r: Index| #[trigger] out@.contains(r) implies reach_prefix(
                        *board,
                        self.id,
                        js@,
                        i + 1,
                        r,
                    ) by {
                        if reach_prefix(*board, self.id, js@, i as int, r) {
                        } else {
                            let ri = choose|ri: int|
                                0 <= ri < rs@.len() && (#[trigger] rs@[ri]).owner is None
                                    && rs@[ri].index == r;
                            assert(rs@.contains(rs@[ri]));
                            assert(step_ok(*board, self.id, js@[i as int], r));
                        }
                    };
                    assert forall|r: Index|
                        reach_prefix(*board, self.id, js@, i + 1, r) implies #[trigger] out@
                        .contains(r) by {
                        let ji = choose|ji: int|
                            0 <= ji < i + 1 && step_ok(*board, self.id, #[trigger] js@[ji], r);
                        if ji < i {
                            assert(reach_prefix(*board, self.id, js@, i as int, r));
                        } else {
                            let rd = board.road_at(r).unwrap();
                            assert(rd.index == r);
                            assert(rs@.contains(rd));
                            let ri = choose|ri: int| 0 <= ri < rs@.len() && rs@[ri] == rd;
                            assert((rs@[ri]).owner is None && rs@[ri].index == r);
                        }
                    };
                }
            } else {
                proof {
                    assert forall|r: Index| reach_prefix(*board, self.id, js@, i + 1, r)
                        implies reach_prefix(*board, self.id, js@, i as int, r) by {
                        let ji = choose|ji: int|
                            0 <= ji < i + 1 && step_ok(*board, self.id, #[trigger] js@[ji], r);
                        assert(ji < i);
                    };
                }
            }
            i += 1;
        }
        proof {
            assert forall|r: Index| #[trigger] out@.contains(r) implies spec_reachable_from(
                *board,
                self.id,
                *road,
                r,
            ) by {
                let ji = choose|ji: int|
                    0 <= ji < js@.len() && step_ok(*board, self.id, #[trigger] js@[ji], r);
                assert(js@.contains(js@[ji]));
                assert(jr_adjacent(*road, js@[ji].index));
            };
            assert forall|r: Index|
                spec_reachable_from(*board, self.id, *road, r) implies #[trigger] out@.contains(
                r,
            ) by {
                let j = choose|j: Index|
                    #[trigger] jr_adjacent(*road, j) && board.spec_can_build_road_thru(self.id, j)
                        && jr_adjacent(j, r);
                let jv = board.junction_at(j).unwrap();
                assert(jv.index == j);
                assert(js@.contains(jv));
                let ji = choose|ji: int| 0 <= ji < js@.len() && js@[ji] == jv;
                assert(step_ok(*board, self.id, js@[ji], r));
            };
        }
        out
    }

    /// Every empty road slot the player may build on now.
    #[verifier::loop_isolation(false)]
    pub fn reachable_roads(&self, board: &Board) -> (out: Vec<Index>)
        requires
            board.nodes_indexed(),
        ensures
            forall|r: Index| #[trigger] out@.contains(r) <==> spec_reachable(*board, *self, r),
            out@.no_duplicates(),
    {
        let mut out: Vec<Index> = Vec::new();
        let mut i: usize = 0;
        while i < self.roads.len()
            invariant
                i <= self.roads@.len(),
                out@.no_duplicates(),
                forall|r: Index| #[trigger] out@.contains(r) <==> road_open_at(*board, r)
                    && (exists|oi: int|
                    0 <= oi < i && reachable_thru(
                        *board,
                        self.id,
                        #[trigger] self.roads@[oi],
                        r,
                    )),
            decreases self.roads@.len() - i,
        {
            let from = self.reachable_from(&self.roads[i], board);
            let mut k: usize = 0;
            while k < from.len()
                invariant
                    0 <= k <= from@.len(),
                    out@.no_duplicates(),
                    forall|r: Index| #[trigger] from@.contains(r) <==> spec_reachable_from(
                        *board,
                        self.id,
                        self.roads@[i as int],
                        r,
                    ),
                    i < self.roads@.len(),
                    forall|r: Index| #[trigger] out@.contains(r) <==> (road_open_at(*board, r)
                        && exists|oi: int|
                        0 <= oi < i && reachable_thru(
                            *board,
                            self.id,
                            #[trigger] self.roads@[oi],
                            r,
                        )) || (exists|ri: int| 0 <= ri < k && (#[trigger] from@[ri]) == r),
                decreases from@.len() - k,
            {
                crate::index::index_vec_insert(&mut out, from[k]);
                proof {
                    assert(from@[k as int] == from[k as int]);
                }
                k += 1;
            }
            proof {
                assert forall|r: Index| #[trigger] out@.contains(r) implies road_open_at(*board, r)
                    && (exists|oi: int|
                    0 <= oi < i + 1 && reachable_thru(
                        *board,
                        self.id,
                        #[trigger] self.roads@[oi],
                        r,
                    )) by {
                    if road_open_at(*board, r) && exists|oi: int|
                        0 <= oi < i && reachable_thru(
                            *board,
                            self.id,
                            #[trigger] self.roads@[oi],
                            r,
                        ) {
                        let oi = choose|oi: int|
                            0 <= oi < i && reachable_thru(
                                *board,
                                self.id,
                                #[trigger] self.roads@[oi],
                                r,
                            );
                        assert(reachable_thru(*board, self.id, self.roads@[oi], r));
                    } else {
                        let ri = choose|ri: int| 0 <= ri < from@.len() && (#[trigger] from@[ri])
                            == r;
                        assert(from@.contains(r));
                        assert(spec_reachable_from(*board, self.id, self.roads@[i as int], r));
                    }
                };
                assert forall|r: Index|
                    road_open_at(*board, r) && (exists|oi: int|
                        0 <= oi < i + 1 && reachable_thru(
                            *board,
                            self.id,
                            #[trigger] self.roads@[oi],
                            r,
                        )) implies #[trigger] out@.contains(r) by {
                    let oi = choose|oi: int|
                        0 <= oi < i + 1 && reachable_thru(
                            *board,
                            self.id,
                            #[trigger] self.roads@[oi],
                            r,
                        );
                    if oi < i {
                    } else {
                        assert(from@.contains(r));
                        let ri = choose|ri: int| 0 <= ri < from@.len() && from@[ri] == r;
                        assert((from@[ri]) == r);
                    }
                };
            }
            i += 1;
        }
        let mut i: usize = 0;
        while i < self.settlements.len()
            invariant
                i <= self.settlements@.len(),
                out@.no_duplicates(),
                forall|r: Index| #[trigger] out@.contains(r) <==> (road_open_at(*board, r)
                    && exists|oi: int|
                    0 <= oi < self.roads@.len() && reachable_thru(
                        *board,
                        self.id,
                        #[trigger] self.roads@[oi],
                        r,
                    )) || (road_open_at(*board, r) && exists|si: int|
                    0 <= si < i && jr_adjacent(#[trigger] self.settlements@[si], r)),
            decreases self.settlements@.len() - i,
        {
            let rs = board.road_neighbors_of_junction(&self.settlements[i]);
            let mut k: usize = 0;
            while k < rs.len()
                invariant
                    0 <= k <= rs@.len(),
                    i < self.settlements@.len(),
                    out@.no_duplicates(),
                    forall|r: Road| #[trigger] rs@.contains(r) <==> (jr_adjacent(
                        self.settlements@[i as int],
                        r.index,
                    ) && board.road_at(r.index) == Some(r)),
                    forall|r: Index| #[trigger] out@.contains(r) <==> (road_open_at(*board, r)
                        && exists|oi: int|
                        0 <= oi < self.roads@.len() && reachable_thru(
                            *board,
                            self.id,
                            #[trigger] self.roads@[oi],
                            r,
                        )) || (road_open_at(*board, r) && exists|si: int|
                        0 <= si < i && jr_adjacent(#[trigger] self.settlements@[si], r)) || (exists|
                        ri: int,
                    |
                        0 <= ri < k && (#[trigger] rs@[ri]).owner is None && rs@[ri].index == r),
                decreases rs@.len() - k,
            {
                let rd = rs[k];
                if rd.owner.is_none() {
                    crate::index::index_vec_insert(&mut out, rd.index);
                    proof {
                        assert((rs@[k as int]).owner is None && rs@[k as int].index == rd.index);
                    }
                }
                k += 1;
            }
            proof {
                assert forall|r: Index| #[trigger] out@.contains(r) implies (road_open_at(*board, r)
                    && exists|oi: int|
                    0 <= oi < self.roads@.len() && reachable_thru(
                        *board,
                        self.id,
                        #[trigger] self.roads@[oi],
                        r,
                    )) || (road_open_at(*board, r) && exists|si: int|
                    0 <= si < i + 1 && jr_adjacent(#[trigger] self.settlements@[si], r)) by {
                    if exists|ri: int|
                        0 <= ri < rs@.len() && (#[trigger] rs@[ri]).owner is None && rs@[ri].index
                            == r {
                        let ri = choose|ri: int|
                            0 <= ri < rs@.len() && (#[trigger] rs@[ri]).owner is None
                                && rs@[ri].index == r;
                        assert(rs@.contains(rs@[ri]));
                        assert(jr_adjacent(self.settlements@[i as int], r));
                    }
                };
                assert forall|r: Index|
                    (road_open_at(*board, r) && exists|si: int|
                        0 <= si < i + 1 && jr_adjacent(
                            #[trigger] self.settlements@[si],
                            r,
                        )) implies #[trigger] out@.contains(r) by {
                    let si = choose|si: int|
                        0 <= si < i + 1 && jr_adjacent(#[trigger] self.settlements@[si], r);
                    if si < i {
                    } else {
                        let rd = board.road_at(r).unwrap();
                        assert(rd.index == r);
                        assert(rs@.contains(rd));
                        let ri = choose|ri: int| 0 <= ri < rs@.len() && rs@[ri] == rd;
                        assert((rs@[ri]).owner is None && rs@[ri].index == r);
                    }
                };
            }
            i += 1;
        }
        proof {
            assert forall|r: Index| #[trigger] out@.contains(r) implies spec_reachable(
                *board,
                *self,
                r,
            ) by {
                if exists|oi: int|
                    0 <= oi < self.roads@.len() && reachable_thru(
                        *board,
                        self.id,
                        #[trigger] self.roads@[oi],
                        r,
                    ) {
                    let oi = choose|oi: int|
                        0 <= oi < self.roads@.len() && reachable_thru(
                            *board,
                            self.id,
                            #[trigger] self.roads@[oi],
                            r,
                        );
                    assert(self.roads@.contains(self.roads@[oi]));
                } else {
                    let si = choose|si: int|
                        0 <= si < self.settlements@.len() && jr_adjacent(
                            #[trigger] self.settlements@[si],
                            r,
                        );
                    assert(self.settlements@.contains(self.settlements@[si]));
                }
            };
            assert forall|r: Index| spec_reachable(*board, *self, r) implies #[trigger] out@
                .contains(r) by {
                if exists|o: Index| #[trigger] self.roads@.contains(o) && reachable_thru(
                    *board,
                    self.id,
                    o,
                    r,
                ) {
                    let o = choose|o: Index|
                        #[trigger] self.roads@.contains(o) && reachable_thru(
                            *board,
                            self.id,
                            o,
                            r,
                        );
                    let oi = choose|oi: int| 0 <= oi < self.roads@.len() && self.roads@[oi] == o;
                    assert(reachable_thru(*board, self.id, self.roads@[oi], r));
                } else {
                    let sIdx = choose|s: Index|
                        #[trigger] self.settlements@.contains(s) && jr_adjacent(s, r);
                    let si = choose|si: int|
                        0 <= si < self.settlements@.len() && self.settlements@[si] == sIdx;
                    assert(jr_adjacent(self.settlements@[si], r));
                }
            };
        }
        out
    }

    /// The ordered road pairs legal for the two-road development card.
    #[verifier::loop_isolation(false)]
    pub fn doubly_reachable_roads(&self, board: &Board) -> (out: Vec<(Index, Index)>)
        requires
            board.nodes_indexed(),
        ensures
            forall|pr: (Index, Index)| #[trigger] out@.contains(pr) <==> spec_doubly(
                *board,
                *self,
                pr.0,
                pr.1,
            ),
    {
        let reachable = self.reachable_roads(board);
        let mut out: Vec<(Index, Index)> = Vec::new();
        let mut i: usize = 0;
        while i < reachable.len()
            invariant
                i <= reachable@.len(),
                forall|r: Index| #[trigger] reachable@.contains(r) <==> spec_reachable(
                    *board,
                    *self,
                    r,
                ),
                forall|pr: (Index, Index)| #[trigger] out@.contains(pr) <==> (exists|ii: int|
                    0 <= ii < i && (#[trigger] reachable@[ii]) == pr.0) && spec_doubly(
                    *board,
                    *self,
                    pr.0,
                    pr.1,
                ),
            decreases reachable@.len() - i,
        {
            let r1 = reachable[i];
            proof {
                assert(reachable@.contains(reachable@[i as int]));
            }
            let mut k: usize = 0;
            while k < reachable.len()
                invariant
                    0 <= k <= reachable@.len(),
                    i < reachable@.len(),
                    r1 == reachable@[i as int],
                    spec_reachable(*board, *self, r1),
                    forall|r: Index| #[trigger] reachable@.contains(r) <==> spec_reachable(
                        *board,
                        *self,
                        r,
                    ),
                    forall|pr: (Index, Index)| #[trigger] out@.contains(pr) <==> ((exists|ii: int|
                        0 <= ii < i && (#[trigger] reachable@[ii]) == pr.0) && spec_doubly(
                        *board,
                        *self,
                        pr.0,
                        pr.1,
                    )) || (pr.0 == r1 && (exists|ri: int|
                        0 <= ri < k && (#[trigger] reachable@[ri]) == pr.1) && pr.1 != r1),
                decreases reachable@.len() - k,
            {
                let r2 = reachable[k];
                if !(r2 == r1) {
                    out.push((r1, r2));
                    proof {
                        assert(reachable@.contains(reachable@[k as int]));
                        assert(spec_doubly(*board, *self, r1, r2));
                    }
                }
                k += 1;
            }
            proof {
                assert forall|pr: (Index, Index)|
                    #[trigger] out@.contains(pr) && !((exists|ii: int|
                        0 <= ii < i && (#[trigger] reachable@[ii]) == pr.0) && spec_doubly(
                        *board,
                        *self,
                        pr.0,
                        pr.1,
                    )) implies pr.0 == r1 && spec_reachable(*board, *self, pr.1) && pr.1
                    != r1 by {
                    let ri = choose|ri: int|
                        0 <= ri < reachable@.len() && (#[trigger] reachable@[ri]) == pr.1;
                    assert(reachable@.contains(pr.1));
                };
                assert forall|pr: (Index, Index)|
                    pr.0 == r1 && spec_reachable(*board, *self, pr.1) && pr.1
                    != r1 implies #[trigger] out@.contains(pr) by {
                    assert(reachable@.contains(pr.1));
                    let ri = choose|ri: int| 0 <= ri < reachable@.len() && reachable@[ri] == pr.1;
                    assert((reachable@[ri]) == pr.1);
                };
            }
            let from1 = self.reachable_from(&r1, board);
            let mut k: usize = 0;
            while k < from1.len()
                invariant
                    0 <= k <= from1@.len(),
                    i < reachable@.len(),
                    r1 == reachable@[i as int],
                    spec_reachable(*board, *self, r1),
                    forall|r: Index| #[trigger] reachable@.contains(r) <==> spec_reachable(
                        *board,
                        *self,
                        r,
                    ),
                    forall|r: Index| #[trigger] from1@.contains(r) <==> spec_reachable_from(
                        *board,
                        self.id,
                        r1,
                        r,
                    ),
                    forall|pr: (Index, Index)| #[trigger] out@.contains(pr) <==> ((exists|ii: int|
                        0 <= ii < i && (#[trigger] reachable@[ii]) == pr.0) && spec_doubly(
                        *board,
                        *self,
                        pr.0,
                        pr.1,
                    )) || (pr.0 == r1 && spec_reachable(*board, *self, pr.1) && pr.1 != r1) || (
                    pr.0 == r1 && (exists|ri: int|
                        0 <= ri < k && (#[trigger] from1@[ri]) == pr.1) && !spec_reachable(
                        *board,
                        *self,
                        pr.1,
                    )),
                decreases from1@.len() - k,
            {
                let r2 = from1[k];
                proof {
                    assert(from1@.contains(from1@[k as int]));
                }
                if !crate::index::index_vec_contains(&reachable, r2) {
                    out.push((r1, r2));
                    proof {
                        assert(spec_doubly(*board, *self, r1, r2));
                    }
                }
                k += 1;
            }
            proof {
                assert forall|pr: (Index, Index)| #[trigger] out@.contains(pr) implies (exists|
                    ii: int,
                |
                    0 <= ii < i + 1 && (#[trigger] reachable@[ii]) == pr.0) && spec_doubly(
                    *board,
                    *self,
                    pr.0,
                    pr.1,
                ) by {
                    if pr.0 == r1 {
                        assert(reachable@[i as int] == pr.0);
                        if spec_reachable(*board, *self, pr.1) && pr.1 != r1 {
                            assert(spec_doubly(*board, *self, pr.0, pr.1));
                        } else if !((exists|ii: int|
                            0 <= ii < i && (#[trigger] reachable@[ii]) == pr.0) && spec_doubly(
                            *board,
                            *self,
                            pr.0,
                            pr.1,
                        )) && !(spec_reachable(*board, *self, pr.1) && pr.1 != r1) {
                            let ri = choose|ri: int|
                                0 <= ri < from1@.len() && (#[trigger] from1@[ri]) == pr.1;
                            assert(from1@.contains(pr.1));
                            assert(spec_reachable_from(*board, self.id, r1, pr.1));
                            assert(spec_doubly(*board, *self, pr.0, pr.1));
                        }
                    }
                };
                assert forall|pr: (Index, Index)|
                    (exists|ii: int|
                        0 <= ii < i + 1 && (#[trigger] reachable@[ii]) == pr.0) && spec_doubly(
                        *board,
                        *self,
                        pr.0,
                        pr.1,
                    ) implies #[trigger] out@.contains(pr) by {
                    let ii = choose|ii: int|
                        0 <= ii < i + 1 && (#[trigger] reachable@[ii]) == pr.0;
                    if ii == i {
                        if spec_reachable(*board, *self, pr.1) {
                            assert(pr.1 != r1);
                            assert(reachable@.contains(pr.1));
                            let ri = choose|ri: int|
                                0 <= ri < reachable@.len() && reachable@[ri] == pr.1;
                            assert((reachable@[ri]) == pr.1);
                        } else {
                            assert(spec_reachable_from(*board, self.id, r1, pr.1));
                            assert(from1@.contains(pr.1));
                            let ri = choose|ri: int| 0 <= ri < from1@.len() && from1@[ri] == pr.1;
                            assert((from1@[ri]) == pr.1);
                        }
                    }
                };
            }
            i += 1;
        }
        proof {
            assert forall|pr: (Index, Index)|
                spec_doubly(*board, *self, pr.0, pr.1) implies #[trigger] out@.contains(pr) by {
                assert(reachable@.contains(pr.0));
                let ii = choose|ii: int| 0 <= ii < reachable@.len() && reachable@[ii] == pr.0;
                assert((reachable@[ii]) == pr.0);
            };
        }
        out
    }
}

/// The owner of the junction at `t`, if a junction stands there and is
/// owned.
pub open spec fn junction_owner_at(b: Board, t: Index) -> Option<PlayerId> {
    match b.junction_at(t) {
        Some(j) => j.owner,
        None => None,
    }
}

/// A discard request's placeholder in the catalog: the real resource
/// list is validated only when the move is submitted.
pub open spec fn is_discard_sentinel(a: Request) -> bool {
    a matches Request::Discard(v) && v@.len() == 0
}

/// A trade offer's placeholder in the catalog.
pub open spec fn is_trade_sentinel(a: Request) -> bool {
    a matches Request::OfferTrade(t) && t.giving == ResourceCounts::zero() && t.getting
        == ResourceCounts::zero() && (t.with matches TradeWith::Players(ps) && ps@.len() == 0)
}

/// The player holds a card of this kind that is playable now.
pub open spec fn has_can_play(p: Player, c: DevCard) -> bool {
    exists|k: int|
        0 <= k < p.dev_cards@.len() && (#[trigger] p.dev_cards@[k]).card == c
            && p.dev_cards@[k].state == DevCardState::CanPlay
}

/// Legality of playing a development card.  A just-bought victory-point
/// card may be revealed before rolling; everything else waits for the
/// roll.
pub open spec fn play_dev_legal(g: Game, p: Player, a: Request) -> bool {
    !p.has_played_dev_card && match a {
        Request::PlayKnight(h) => has_can_play(p, DevCard::Knight) && g.has_rolled && g.board.hex_at(
            h,
        ) is Some && h != g.robber_index,
        Request::PlayMonopoly(_) => has_can_play(p, DevCard::Monopoly) && g.has_rolled,
        Request::PlayRoadBuilding(r1, r2) => has_can_play(p, DevCard::RoadBuilding) && g.has_rolled
            && spec_doubly(g.board, p, r1, r2),
        Request::PlayVictoryPoint => has_can_play(p, DevCard::VictoryPoint),
        Request::PlayYearOfPlenty(_, _) => has_can_play(p, DevCard::YearOfPlenty) && g.has_rolled,
        _ => false,
    }
}

pub open spec fn build_city_legal(g: Game, p: Player, a: Request) -> bool {
    a matches Request::BuildCity(j) && p.hand.covers(
        crate::boards::spec_city_cost(g.board.board_type),
    ) && p.cities@.len() < 4 && p.settlements@.contains(j)
}

pub open spec fn buy_dev_legal(g: Game, p: Player, a: Request) -> bool {
    a == Request::BuyDevCard && p.hand.covers(
        crate::boards::spec_dev_card_cost(g.board.board_type),
    ) && g.dev_cards@.len() > 0
}

pub open spec fn build_road_legal(g: Game, p: Player, a: Request) -> bool {
    a matches Request::BuildRoad(r) && p.hand.covers(
        crate::boards::spec_road_cost(g.board.board_type),
    ) && p.roads@.len() < 15 && spec_reachable(g.board, p, r)
}

/// A settleable junction adjacent to one of the player's own roads.
pub open spec fn settle_spot_legal(g: Game, p: Player, j: Index) -> bool {
    &&& (g.board.junction_at(j) matches Some(jv) && jv.is_settleable)
    &&& exists|o: Index| #[trigger] p.roads@.contains(o) && jr_adjacent(o, j)
}

pub open spec fn build_settlement_legal(g: Game, p: Player, a: Request) -> bool {
    a matches Request::BuildSettlement(j) && p.hand.covers(
        crate::boards::spec_settlement_cost(g.board.board_type),
    ) && p.settlements@.len() - p.cities@.len() < 5 && settle_spot_legal(g, p, j)
}

/// Which rolls may be requested: any total, or a forced value 2..12 —
/// except that a forced seven is not allowed before the fifth round.
pub open spec fn dice_legal(g: Game, a: Request) -> bool {
    a matches Request::RollDice(o) && match o {
        None => true,
        Some(v) => 2 <= v <= 12 && (v != 7 || g.round_number() > 4),
    }
}

/// During the two placement rounds the root state offers every still
/// settleable junction.
pub open spec fn root_placement_legal(g: Game, a: Request) -> bool {
    a matches Request::BuildSettlement(j) && (g.board.junction_at(j) matches Some(jv)
        && jv.is_settleable)
}

/// The root state after rolling: end the turn, open a trade, build,
/// buy, or play a card.
pub open spec fn root_rolled_legal(g: Game, p: Player, a: Request) -> bool {
    ||| a == Request::EndTurn
    ||| (is_trade_sentinel(a) && p.hand.total() > 0 && p.num_trades_offered_this_turn
        < MAX_TRADES_PER_TURN)
    ||| build_city_legal(g, p, a)
    ||| buy_dev_legal(g, p, a)
    ||| build_road_legal(g, p, a)
    ||| build_settlement_legal(g, p, a)
    ||| play_dev_legal(g, p, a)
}

pub open spec fn steal_legal(g: Game, p: Player, a: Request) -> bool {
    a matches Request::StealFrom(q) && q != p.id && exists|t: Index|
        #[trigger] crate::board::hj_adjacent(g.robber_index, t) && junction_owner_at(g.board, t)
            == Some(q)
}

/// After rolling a seven: discard if owed, wait while others owe, then
/// move the robber anywhere else.
pub open spec fn seven_legal(g: Game, p: Player, a: Request) -> bool {
    if p.num_to_discard > 0 {
        is_discard_sentinel(a)
    } else if g.spec_waiting_to_discard() {
        false
    } else {
        a matches Request::MoveRobber(h) && g.board.hex_at(h) is Some && h != g.robber_index
    }
}

/// Between turns: discard if owed, else respond to an open trade that
/// names this player and that they can afford.
pub open spec fn respond_trade_available(g: Game, p: Player) -> bool {
    match g.current_trade {
        Some(t) => match t.with {
            TradeWith::Players(ps) => !p.has_declined_trade && p.hand.covers(t.getting)
                && ps@.contains(p.id),
            TradeWith::Bank => false,
        },
        None => false,
    }
}

pub open spec fn wait_legal(g: Game, p: Player, a: Request) -> bool {
    if p.num_to_discard > 0 {
        is_discard_sentinel(a)
    } else {
        (a == Request::AcceptTrade || a == Request::DeclineTrade) && respond_trade_available(g, p)
    }
}

/// The exhaustive legal-action relation: `a` is in the catalog the
/// engine would offer player `p` in game `g`.  A finished match offers
/// nothing.
pub open spec fn in_catalog(g: Game, p: Player, a: Request) -> bool {
    &&& g.spec_winner() is None
    &&& match p.state {
        PlayerState::AfterBuildingFreeSettlement => a matches Request::BuildRoad(r)
            && spec_reachable(g.board, p, r),
        PlayerState::AfterRollingSeven => seven_legal(g, p, a),
        PlayerState::ChooseInitialResources => a matches Request::ChooseInitialResources(j)
            && p.settlements@.contains(j),
        PlayerState::Root => if g.round_number() <= 1 {
            root_placement_legal(g, a)
        } else if !g.has_rolled {
            dice_legal(g, a) || play_dev_legal(g, p, a)
        } else {
            root_rolled_legal(g, p, a)
        },
        PlayerState::Stealing => steal_legal(g, p, a),
        PlayerState::WaitForTurn => wait_legal(g, p, a),
        PlayerState::WaitForTradeResponses => a == Request::CancelTrade,
    }
}

/// Appends one build-road action per listed slot.
#[verifier::loop_isolation(false)]
fn push_build_roads(out: &mut Vec<Request>, rr: &Vec<Index>)
    ensures
        forall|a: Request| #[trigger] final(out)@.contains(a) <==> old(out)@.contains(a) || (
        a matches Request::BuildRoad(r) && rr@.contains(r)),
{
    let mut i: usize = 0;
    while i < rr.len()
        invariant
            i <= rr@.len(),
            forall|a: Request| #[trigger] out@.contains(a) <==> old(out)@.contains(a) || (
            a matches Request::BuildRoad(r) && exists|ri: int|
                0 <= ri < i && #[trigger] rr@[ri] == r),
        decreases rr@.len() - i,
    {
        out.push(Request::BuildRoad(rr[i]));
        i += 1;
    }
    proof {
        assert forall|a: Request|
            #[trigger] out@.contains(a) <==> old(out)@.contains(a) || (
        a matches Request::BuildRoad(r) && rr@.contains(r)) by {
            match a {
                Request::BuildRoad(r) => {
                    if rr@.contains(r) {
                        let ri = choose|ri: int| 0 <= ri < rr@.len() && rr@[ri] == r;
                        assert(rr@[ri] == r);
                    }
                },
                _ => {},
            }
        };
    }
}

/// Appends one choose-initial-resources action per owned settlement.
#[verifier::loop_isolation(false)]
fn push_choose_initial(out: &mut Vec<Request>, ss: &Vec<Index>)
    ensures
        forall|a: Request| #[trigger] final(out)@.contains(a) <==> old(out)@.contains(a) || (
        a matches Request::ChooseInitialResources(j) && ss@.contains(j)),
{
    let mut i: usize = 0;
    while i < ss.len()
        invariant
            i <= ss@.len(),
            forall|a: Request| #[trigger] out@.contains(a) <==> old(out)@.contains(a) || (
            a matches Request::ChooseInitialResources(j) && exists|ri: int|
                0 <= ri < i && #[trigger] ss@[ri] == j),
        decreases ss@.len() - i,
    {
        out.push(Request::ChooseInitialResources(ss[i]));
        i += 1;
    }
    proof {
        assert forall|a: Request|
            #[trigger] out@.contains(a) <==> old(out)@.contains(a) || (
        a matches Request::ChooseInitialResources(j) && ss@.contains(j)) by {
            match a {
                Request::ChooseInitialResources(j) => {
                    if ss@.contains(j) {
                        let ri = choose|ri: int| 0 <= ri < ss@.len() && ss@[ri] == j;
                        assert(ss@[ri] == j);
                    }
                },
                _ => {},
            }
        };
    }
}

/// Appends one build-city action per owned settlement.
#[verifier::loop_isolation(false)]
fn push_city_actions(out: &mut Vec<Request>, ss: &Vec<Index>)
    ensures
        forall|a: Request| #[trigger] final(out)@.contains(a) <==> old(out)@.contains(a) || (
        a matches Request::BuildCity(j) && ss@.contains(j)),
{
    let mut i: usize = 0;
    while i < ss.len()
        invariant
            i <= ss@.len(),
            forall|a: Request| #[trigger] out@.contains(a) <==> old(out)@.contains(a) || (
            a matches Request::BuildCity(j) && exists|ri: int|
                0 <= ri < i && #[trigger] ss@[ri] == j),
        decreases ss@.len() - i,
    {
        out.push(Request::BuildCity(ss[i]));
        i += 1;
    }
    proof {
        assert forall|a: Request|
            #[trigger] out@.contains(a) <==> old(out)@.contains(a) || (
        a matches Request::BuildCity(j) && ss@.contains(j)) by {
            match a {
                Request::BuildCity(j) => {
                    if ss@.contains(j) {
                        let ri = choose|ri: int| 0 <= ri < ss@.len() && ss@[ri] == j;
                        assert(ss@[ri] == j);
                    }
                },
                _ => {},
            }
        };
    }
}

/// Appends one two-road action per legal ordered pair.
#[verifier::loop_isolation(false)]
fn push_road_buildings(out: &mut Vec<Request>, prs: &Vec<(Index, Index)>)
    ensures
        forall|a: Request| #[trigger] final(out)@.contains(a) <==> old(out)@.contains(a) || (
        a matches Request::PlayRoadBuilding(r1, r2) && prs@.contains((r1, r2))),
{
    let mut i: usize = 0;
    while i < prs.len()
        invariant
            i <= prs@.len(),
            forall|a: Request| #[trigger] out@.contains(a) <==> old(out)@.contains(a) || (
            a matches Request::PlayRoadBuilding(r1, r2) && exists|ri: int|
                0 <= ri < i && #[trigger] prs@[ri] == (r1, r2)),
        decreases prs@.len() - i,
    {
        let (r1, r2) = prs[i];
        out.push(Request::PlayRoadBuilding(r1, r2));
        proof {
            assert(prs@[i as int] == (r1, r2));
        }
        i += 1;
    }
    proof {
        assert forall|a: Request|
            #[trigger] out@.contains(a) <==> old(out)@.contains(a) || (
        a matches Request::PlayRoadBuilding(r1, r2) && prs@.contains((r1, r2))) by {
            match a {
                Request::PlayRoadBuilding(r1, r2) => {
                    if prs@.contains((r1, r2)) {
                        let w = choose|w: int| 0 <= w < prs@.len() && prs@[w] == (r1, r2);
                        assert(prs@[w] == (r1, r2));
                    }
                },
                _ => {},
            }
        };
    }
}

/// Appends a move-robber (or play-knight) action for every hex other
/// than the robber's.
#[verifier::loop_isolation(false)]
fn push_hex_targets(out: &mut Vec<Request>, b: &Board, robber: Index, knight: bool)
    requires
        b.nodes_indexed(),
        b.grid_bounded(),
    ensures
        forall|a: Request| #[trigger] final(out)@.contains(a) <==> old(out)@.contains(a) || (if knight {
            a matches Request::PlayKnight(h) && b.hex_at(h) is Some && h != robber
        } else {
            a matches Request::MoveRobber(h) && b.hex_at(h) is Some && h != robber
        }),
{
    let hexes = b.hexes();
    let mut i: usize = 0;
    while i < hexes.len()
        invariant
            i <= hexes@.len(),
            forall|h: crate::hex::Hex| #[trigger] hexes@.contains(h) <==> b.hex_at(h.index)
                == Some(h),
            forall|a: Request| #[trigger] out@.contains(a) <==> old(out)@.contains(a) || (exists|
                ri: int,
            |
                0 <= ri < i && (#[trigger] hexes@[ri]).index != robber && a == (if knight {
                    Request::PlayKnight(hexes@[ri].index)
                } else {
                    Request::MoveRobber(hexes@[ri].index)
                })),
        decreases hexes@.len() - i,
    {
        let h = hexes[i];
        if !(h.index == robber) {
            if knight {
                out.push(Request::PlayKnight(h.index));
            } else {
                out.push(Request::MoveRobber(h.index));
            }
        }
        i += 1;
    }
    proof {
        assert forall|a: Request|
            #[trigger] out@.contains(a) <==> old(out)@.contains(a) || (if knight {
                a matches Request::PlayKnight(h) && b.hex_at(h) is Some && h != robber
            } else {
                a matches Request::MoveRobber(h) && b.hex_at(h) is Some && h != robber
            }) by {
            if out@.contains(a) && !old(out)@.contains(a) {
                let ri = choose|ri: int|
                    0 <= ri < i && (#[trigger] hexes@[ri]).index != robber && a == (if knight {
                        Request::PlayKnight(hexes@[ri].index)
                    } else {
                        Request::MoveRobber(hexes@[ri].index)
                    });
                assert(hexes@.contains(hexes@[ri]));
            } else if !old(out)@.contains(a) {
                let target: Option<Index> = if knight {
                    match a {
                        Request::PlayKnight(h) => Some(h),
                        _ => None,
                    }
                } else {
                    match a {
                        Request::MoveRobber(h) => Some(h),
                        _ => None,
                    }
                };
                match target {
                    Some(h) => {
                        if b.hex_at(h) is Some && h != robber {
                            let hv = b.hex_at(h).unwrap();
                            assert(hv.index == h);
                            assert(hexes@.contains(hv));
                            let ri = choose|ri: int| 0 <= ri < hexes@.len() && hexes@[ri] == hv;
                            assert((hexes@[ri]).index != robber);
                        }
                    },
                    None => {},
                }
            }
        };
    }
}

/// Appends every roll request: each total from 2 to 12 (seven only
/// once forced sevens are allowed) and the free roll.
fn push_dice(out: &mut Vec<Request>, allow_seven: bool)
    ensures
        forall|a: Request| #[trigger] final(out)@.contains(a) <==> old(out)@.contains(a) || (
        a matches Request::RollDice(o) && match o {
            None => true,
            Some(v) => 2 <= v <= 12 && (v != 7 || allow_seven),
        }),
{
    out.push(Request::RollDice(Some(2)));
    out.push(Request::RollDice(Some(3)));
    out.push(Request::RollDice(Some(4)));
    out.push(Request::RollDice(Some(5)));
    out.push(Request::RollDice(Some(6)));
    if allow_seven {
        out.push(Request::RollDice(Some(7)));
    }
    out.push(Request::RollDice(Some(8)));
    out.push(Request::RollDice(Some(9)));
    out.push(Request::RollDice(Some(10)));
    out.push(Request::RollDice(Some(11)));
    out.push(Request::RollDice(Some(12)));
    out.push(Request::RollDice(None));
}

/// Appends one monopoly action per resource kind.
fn push_monopolies(out: &mut Vec<Request>)
    ensures
        forall|a: Request| #[trigger] final(out)@.contains(a) <==> old(out)@.contains(a) || (
        a matches Request::PlayMonopoly(_)),
{
    out.push(Request::PlayMonopoly(Resource::Brick));
    out.push(Request::PlayMonopoly(Resource::Ore));
    out.push(Request::PlayMonopoly(Resource::Sheep));
    out.push(Request::PlayMonopoly(Resource::Wheat));
    out.push(Request::PlayMonopoly(Resource::Wood));
    proof {
        assert forall|a: Request|
            #[trigger] out@.contains(a) <==> old(out)@.contains(a) || (
        a matches Request::PlayMonopoly(_)) by {
            match a {
                Request::PlayMonopoly(r) => {
                    match r {
                        Resource::Brick => assert(out@.contains(a)),
                        Resource::Ore => assert(out@.contains(a)),
                        Resource::Sheep => assert(out@.contains(a)),
                        Resource::Wheat => assert(out@.contains(a)),
                        Resource::Wood => assert(out@.contains(a)),
                    }
                },
                _ => {},
            }
        };
    }
}

/// Appends one year-of-plenty action per ordered pair of resources.
fn push_yops(out: &mut Vec<Request>)
    ensures
        forall|a: Request| #[trigger] final(out)@.contains(a) <==> old(out)@.contains(a) || (
        a matches Request::PlayYearOfPlenty(_, _)),
{
    let all1 = Resource::all();
    let mut i: usize = 0;
    while i < all1.len()
        invariant
            i <= 5,
            all1@ =~= seq![
                Resource::Brick,
                Resource::Ore,
                Resource::Sheep,
                Resource::Wheat,
                Resource::Wood,
            ],
            forall|a: Request| #[trigger] out@.contains(a) <==> old(out)@.contains(a) || (
            a matches Request::PlayYearOfPlenty(r1, r2) && exists|ri: int|
                0 <= ri < i && #[trigger] all1@[ri] == r1),
        decreases all1@.len() - i,
    {
        let r1 = all1[i];
        out.push(Request::PlayYearOfPlenty(r1, Resource::Brick));
        out.push(Request::PlayYearOfPlenty(r1, Resource::Ore));
        out.push(Request::PlayYearOfPlenty(r1, Resource::Sheep));
        out.push(Request::PlayYearOfPlenty(r1, Resource::Wheat));
        out.push(Request::PlayYearOfPlenty(r1, Resource::Wood));
        proof {
            assert(all1@[i as int] == r1);
            assert forall|a: Request|
                #[trigger] out@.contains(a) <==> old(out)@.contains(a) || (
            a matches Request::PlayYearOfPlenty(q1, q2) && exists|ri: int|
                0 <= ri < i + 1 && #[trigger] all1@[ri] == q1) by {
                match a {
                    Request::PlayYearOfPlenty(q1, q2) => {
                        if q1 == r1 {
                            match q2 {
                                Resource::Brick => assert(out@.contains(a)),
                                Resource::Ore => assert(out@.contains(a)),
                                Resource::Sheep => assert(out@.contains(a)),
                                Resource::Wheat => assert(out@.contains(a)),
                                Resource::Wood => assert(out@.contains(a)),
                            }
                        }
                    },
                    _ => {},
                }
            };
        }
        i += 1;
    }
    proof {
        assert forall|a: Request|
            #[trigger] out@.contains(a) <==> old(out)@.contains(a) || (
        a matches Request::PlayYearOfPlenty(_, _)) by {
            match a {
                Request::PlayYearOfPlenty(q1, q2) => {
                    match q1 {
                        Resource::Brick => assert(all1@[0] == q1),
                        Resource::Ore => assert(all1@[1] == q1),
                        Resource::Sheep => assert(all1@[2] == q1),
                        Resource::Wheat => assert(all1@[3] == q1),
                        Resource::Wood => assert(all1@[4] == q1),
                    }
                },
                _ => {},
            }
        };
    }
}

impl Player {
    /// Whether the hand holds a playable card of this kind.
    pub fn holds_playable(&self, c: DevCard) -> (out: bool)
        ensures
            out == has_can_play(*self, c),
    {
        let mut i: usize = 0;
        while i < self.dev_cards.len()
            invariant
                i <= self.dev_cards@.len(),
                forall|k: int|
                    0 <= k < i ==> !((#[trigger] self.dev_cards@[k]).card == c
                        && self.dev_cards@[k].state == DevCardState::CanPlay),
            decreases self.dev_cards@.len() - i,
        {
            let card = self.dev_cards[i];
            if card.card == c && matches!(card.state, DevCardState::CanPlay) {
                return true;
            }
            i += 1;
        }
        false
    }

    /// Appends every settleable junction adjacent to one of the
    /// player's roads.
    #[verifier::loop_isolation(false)]
    fn push_settlement_spots(&self, board: &Board, out: &mut Vec<Request>)
        requires
            board.nodes_indexed(),
        ensures
            forall|a: Request| #[trigger] final(out)@.contains(a) <==> old(out)@.contains(a) || (
            a matches Request::BuildSettlement(j) && (board.junction_at(j) matches Some(jv)
                && jv.is_settleable) && exists|o: Index|
                #[trigger] self.roads@.contains(o) && jr_adjacent(o, j)),
    {
        let mut i: usize = 0;
        while i < self.roads.len()
            invariant
                i <= self.roads@.len(),
                forall|a: Request| #[trigger] out@.contains(a) <==> old(out)@.contains(a) || (
                a matches Request::BuildSettlement(j) && (board.junction_at(j) matches Some(jv)
                    && jv.is_settleable) && exists|oi: int|
                    0 <= oi < i && jr_adjacent(#[trigger] self.roads@[oi], j)),
            decreases self.roads@.len() - i,
        {
            let js = board.junction_neighbors_of_road(&self.roads[i]);
            let mut k: usize = 0;
            while k < js.len()
                invariant
                    0 <= k <= js@.len(),
                    i < self.roads@.len(),
                    forall|jv: Junction| #[trigger] js@.contains(jv) <==> (jr_adjacent(
                        self.roads@[i as int],
                        jv.index,
                    ) && board.junction_at(jv.index) == Some(jv)),
                    forall|a: Request| #[trigger] out@.contains(a) <==> old(out)@.contains(a) || (
                    a matches Request::BuildSettlement(j) && (board.junction_at(j) matches Some(jv)
                        && jv.is_settleable) && exists|oi: int|
                        0 <= oi < i && jr_adjacent(#[trigger] self.roads@[oi], j)) || (
                    a matches Request::BuildSettlement(j) && exists|ji: int|
                        0 <= ji < k && (#[trigger] js@[ji]).is_settleable && js@[ji].index == j),
                decreases js@.len() - k,
            {
                let jv = js[k];
                if jv.is_settleable {
                    out.push(Request::BuildSettlement(jv.index));
                    proof {
                        assert((js@[k as int]).is_settleable && js@[k as int].index == jv.index);
                    }
                }
                k += 1;
            }
            proof {
                assert forall|a: Request|
                    #[trigger] out@.contains(a) && !old(out)@.contains(a) implies (
                a matches Request::BuildSettlement(j) && (board.junction_at(j) matches Some(jv)
                    && jv.is_settleable) && exists|oi: int|
                    0 <= oi < i + 1 && jr_adjacent(#[trigger] self.roads@[oi], j)) by {
                    match a {
                        Request::BuildSettlement(j) => {
                            if exists|ji: int|
                                0 <= ji < js@.len() && (#[trigger] js@[ji]).is_settleable
                                    && js@[ji].index == j {
                                let ji = choose|ji: int|
                                    0 <= ji < js@.len() && (#[trigger] js@[ji]).is_settleable
                                        && js@[ji].index == j;
                                assert(js@.contains(js@[ji]));
                                assert(jr_adjacent(self.roads@[i as int], j));
                            }
                        },
                        _ => {},
                    }
                };
                assert forall|a: Request|
                    (a matches Request::BuildSettlement(j) && (board.junction_at(
                        j,
                    ) matches Some(jv) && jv.is_settleable) && exists|oi: int|
                        0 <= oi < i + 1 && jr_adjacent(
                            #[trigger] self.roads@[oi],
                            j,
                        )) implies #[trigger] out@.contains(a) by {
                    match a {
                        Request::BuildSettlement(j) => {
                            let oi = choose|oi: int|
                                0 <= oi < i + 1 && jr_adjacent(#[trigger] self.roads@[oi], j);
                            if oi == i {
                                let jv = board.junction_at(j).unwrap();
                                assert(jv.index == j);
                                assert(js@.contains(jv));
                                let ji = choose|ji: int| 0 <= ji < js@.len() && js@[ji] == jv;
                                assert((js@[ji]).is_settleable && js@[ji].index == j);
                            }
                        },
                        _ => {},
                    }
                };
            }
            i += 1;
        }
        proof {
            assert forall|a: Request|
                #[trigger] out@.contains(a) && !old(out)@.contains(a) implies (
            a matches Request::BuildSettlement(j) && (board.junction_at(j) matches Some(jv)
                && jv.is_settleable) && exists|o: Index|
                #[trigger] self.roads@.contains(o) && jr_adjacent(o, j)) by {
                match a {
                    Request::BuildSettlement(j) => {
                        let oi = choose|oi: int|
                            0 <= oi < self.roads@.len() && jr_adjacent(
                                #[trigger] self.roads@[oi],
                                j,
                            );
                        assert(self.roads@.contains(self.roads@[oi]));
                    },
                    _ => {},
                }
            };
            assert forall|a: Request|
                (a matches Request::BuildSettlement(j) && (board.junction_at(j) matches Some(jv)
                    && jv.is_settleable) && exists|o: Index|
                    #[trigger] self.roads@.contains(o) && jr_adjacent(o, j)) implies #[trigger] out@
                .contains(a) by {
                match a {
                    Request::BuildSettlement(j) => {
                        let o = choose|o: Index|
                            #[trigger] self.roads@.contains(o) && jr_adjacent(o, j);
                        let oi = choose|oi: int|
                            0 <= oi < self.roads@.len() && self.roads@[oi] == o;
                        assert(jr_adjacent(self.roads@[oi], j));
                    },
                    _ => {},
                }
            };
        }
    }

    /// Appends every steal target: each distinct rival owning a
    /// junction adjacent to the robber's hex.
    #[verifier::loop_isolation(false)]
    fn push_steal_targets(&self, board: &Board, robber: Index, out: &mut Vec<Request>)
        requires
            board.nodes_indexed(),
        ensures
            forall|a: Request| #[trigger] final(out)@.contains(a) <==> old(out)@.contains(a) || (
            a matches Request::StealFrom(q) && q != self.id && exists|t: Index|
                #[trigger] crate::board::hj_adjacent(robber, t) && junction_owner_at(*board, t)
                    == Some(q)),
    {
        let js = board.junction_neighbors_of_hex(&robber);
        let mut seen: Vec<PlayerId> = Vec::new();
        let mut i: usize = 0;
        while i < js.len()
            invariant
                i <= js@.len(),
                forall|jv: Junction| #[trigger] js@.contains(jv) <==> (crate::board::hj_adjacent(
                    robber,
                    jv.index,
                ) && board.junction_at(jv.index) == Some(jv)),
                forall|a: Request| #[trigger] out@.contains(a) <==> old(out)@.contains(a) || (
                a matches Request::StealFrom(q) && seen@.contains(q)),
                forall|q: PlayerId| #[trigger] seen@.contains(q) <==> q != self.id && exists|
                    ji: int,
                |
                    0 <= ji < i && (#[trigger] js@[ji]).owner == Some(q),
            decreases js@.len() - i,
        {
            let jv = js[i];
            if let Some(q) = jv.owner {
                if !(q == self.id) && !crate::game::id_vec_contains(&seen, q) {
                    seen.push(q);
                    out.push(Request::StealFrom(q));
                }
            }
            proof {
                assert forall|q: PlayerId|
                    #[trigger] seen@.contains(q) <==> q != self.id && exists|ji: int|
                        0 <= ji < i + 1 && (#[trigger] js@[ji]).owner == Some(q) by {
                    if q != self.id && exists|ji: int|
                        0 <= ji < i + 1 && (#[trigger] js@[ji]).owner == Some(q) {
                        let ji = choose|ji: int|
                            0 <= ji < i + 1 && (#[trigger] js@[ji]).owner == Some(q);
                        if ji < i {
                            assert(seen@.contains(q));
                        }
                    }
                };
            }
            i += 1;
        }
        proof {
            assert forall|a: Request|
                #[trigger] out@.contains(a) <==> old(out)@.contains(a) || (
            a matches Request::StealFrom(q) && q != self.id && exists|t: Index|
                #[trigger] crate::board::hj_adjacent(robber, t) && junction_owner_at(*board, t)
                    == Some(q)) by {
                match a {
                    Request::StealFrom(q) => {
                        if seen@.contains(q) {
                            let ji = choose|ji: int|
                                0 <= ji < js@.len() && (#[trigger] js@[ji]).owner == Some(q);
                            assert(js@.contains(js@[ji]));
                            assert(crate::board::hj_adjacent(robber, js@[ji].index));
                            assert(junction_owner_at(*board, js@[ji].index) == Some(q));
                        } else if q != self.id && exists|t: Index|
                            #[trigger] crate::board::hj_adjacent(robber, t) && junction_owner_at(
                                *board,
                                t,
                            ) == Some(q) {
                            let t = choose|t: Index|
                                #[trigger] crate::board::hj_adjacent(robber, t)
                                    && junction_owner_at(*board, t) == Some(q);
                            let jv = board.junction_at(t).unwrap();
                            assert(jv.index == t);
                            assert(js@.contains(jv));
                            let ji = choose|ji: int| 0 <= ji < js@.len() && js@[ji] == jv;
                            assert((js@[ji]).owner == Some(q));
                            assert(seen@.contains(q));
                        }
                    },
                    _ => {},
                }
            };
        }
    }

    /// Appends every development-card play the player may make now.
    fn push_play_dev(&self, game: &Game, out: &mut Vec<Request>)
        requires
            game.board.nodes_indexed(),
            game.board.grid_bounded(),
        ensures
            forall|a: Request| #[trigger] final(out)@.contains(a) <==> old(out)@.contains(a)
                || play_dev_legal(*game, *self, a),
    {
        if self.has_played_dev_card {
            return ;
        }
        if self.holds_playable(DevCard::Knight) && game.has_rolled {
            push_hex_targets(out, &game.board, game.robber_index, true);
        }
        if self.holds_playable(DevCard::Monopoly) && game.has_rolled {
            push_monopolies(out);
        }
        if self.holds_playable(DevCard::RoadBuilding) && game.has_rolled {
            let prs = self.doubly_reachable_roads(&game.board);
            push_road_buildings(out, &prs);
        }
        if self.holds_playable(DevCard::VictoryPoint) {
            out.push(Request::PlayVictoryPoint);
        }
        if self.holds_playable(DevCard::YearOfPlenty) && game.has_rolled {
            push_yops(out);
        }
    }

    /// The exhaustive list of legal actions for this player: everything
    /// offered is legal, every legal concrete action is offered, and
    /// the two content-free placeholders appear exactly when a discard
    /// is owed or a trade may be opened.  A finished match offers no
    /// actions at all.
    pub fn available_actions(&self, game: &Game) -> (out: Vec<Request>)
        requires
            game.wf(),
            self.wf(),
        ensures
            forall|a: Request| #[trigger] out@.contains(a) ==> in_catalog(*game, *self, a),
            forall|a: Request|
                in_catalog(*game, *self, a) && non_sentinel_shape(a) ==> #[trigger] out@.contains(
                    a,
                ),
            holds_discard_sentinel(out@) <==> discard_sentinel_available(*game, *self),
            holds_trade_sentinel(out@) <==> trade_sentinel_available(*game, *self),
    {
        let mut out: Vec<Request> = Vec::new();
        if game.is_game_over().is_some() {
            return out;
        }
        let board = &game.board;
        match self.state {
            PlayerState::AfterBuildingFreeSettlement => {
                let rr = self.reachable_roads(board);
                push_build_roads(&mut out, &rr);
            },
            PlayerState::AfterRollingSeven => {
                if self.num_to_discard > 0 {
                    out.push(Request::Discard(Vec::new()));
                    proof {
                        assert(out@.contains(out@[0]) && is_discard_sentinel(out@[0]));
                    }
                } else if game.waiting_for_players_to_discard() {
                    // nothing to do but wait
                } else {
                    push_hex_targets(&mut out, board, game.robber_index, false);
                }
            },
            PlayerState::ChooseInitialResources => {
                push_choose_initial(&mut out, &self.settlements);
            },
            PlayerState::Root => {
                let n = game.player_order.len() as u64;
                let round = game.turn_number / n;
                if round <= 1 {
                    let js = board.junctions();
                    let mut i: usize = 0;
                    while i < js.len()
                        invariant
                            i <= js@.len(),
                            forall|jv: Junction| #[trigger] js@.contains(jv)
                                <==> board.junction_at(jv.index) == Some(jv),
                            board.nodes_indexed(),
                            forall|a: Request| #[trigger] out@.contains(a) <==> (
                            a matches Request::BuildSettlement(j) && exists|ji: int|
                                0 <= ji < i && (#[trigger] js@[ji]).is_settleable && js@[ji].index
                                    == j),
                        decreases js@.len() - i,
                    {
                        let jv = js[i];
                        if jv.is_settleable {
                            out.push(Request::BuildSettlement(jv.index));
                            proof {
                                assert((js@[i as int]).is_settleable && js@[i as int].index
                                    == jv.index);
                            }
                        }
                        i += 1;
                    }
                    proof {
                        assert forall|a: Request|
                            #[trigger] out@.contains(a) <==> root_placement_legal(*game, a) by {
                            match a {
                                Request::BuildSettlement(j) => {
                                    if out@.contains(a) {
                                        let ji = choose|ji: int|
                                            0 <= ji < js@.len() && (
                                            #[trigger] js@[ji]).is_settleable && js@[ji].index
                                                == j;
                                        assert(js@.contains(js@[ji]));
                                    } else if root_placement_legal(*game, a) {
                                        let jv = board.junction_at(j).unwrap();
                                        assert(jv.index == j);
                                        assert(js@.contains(jv));
                                        let ji = choose|ji: int|
                                            0 <= ji < js@.len() && js@[ji] == jv;
                                        assert((js@[ji]).is_settleable && js@[ji].index == j);
                                    }
                                },
                                _ => {},
                            }
                        };
                    }
                } else if !game.has_rolled {
                    push_dice(&mut out, round > 4);
                    self.push_play_dev(game, &mut out);
                } else {
                    out.push(Request::EndTurn);
                    let ghost mut sw: Request = Request::EndTurn;
                    if self.hand.count_total() > 0 && self.num_trades_offered_this_turn
                        < MAX_TRADES_PER_TURN {
                        out.push(Request::OfferTrade(crate::trade::Trade::empty()));
                        proof {
                            sw = out@[1];
                            assert(out@.contains(sw) && is_trade_sentinel(sw));
                        }
                    }
                    proof {
                        assert(out@.contains(out@[0]) && out@[0] == Request::EndTurn);
                        assert forall|a: Request| #[trigger] out@.contains(a) implies (a
                            == Request::EndTurn || (is_trade_sentinel(a) && self.hand.total() > 0
                            && self.num_trades_offered_this_turn < MAX_TRADES_PER_TURN)) by {}
                    }
                    if self.can_afford(&crate::boards::city_cost(board.board_type))
                        && self.cities.len() < crate::boards::max_cities(board.board_type) {
                        push_city_actions(&mut out, &self.settlements);
                    }
                    if self.can_afford(&crate::boards::dev_card_cost(board.board_type))
                        && game.dev_cards.len() > 0 {
                        out.push(Request::BuyDevCard);
                    }
                    if self.can_afford(&crate::boards::road_cost(board.board_type))
                        && self.roads.len() < crate::boards::max_roads(board.board_type) {
                        let rr = self.reachable_roads(board);
                        push_build_roads(&mut out, &rr);
                    }
                    proof {
                        broadcast use vstd::seq_lib::seq_to_set_is_finite;

                        self.cities@.unique_seq_to_set();
                        self.settlements@.unique_seq_to_set();
                        assert forall|x: Index|
                            self.cities@.to_set().contains(x) implies self.settlements@.to_set()
                            .contains(x) by {
                            let ci = choose|ci: int|
                                0 <= ci < self.cities@.len() && self.cities@[ci] == x;
                            assert(self.settlements@.contains(self.cities@[ci]));
                        };
                        vstd::set_lib::lemma_len_subset(
                            self.cities@.to_set(),
                            self.settlements@.to_set(),
                        );
                        assert(self.cities@.len() <= self.settlements@.len());
                    }
                    if self.can_afford(&crate::boards::settlement_cost(board.board_type))
                        && self.settlements.len() - self.cities.len() < crate::boards::max_settlements(
                        board.board_type,
                    ) {
                        self.push_settlement_spots(board, &mut out);
                    }
                    self.push_play_dev(game, &mut out);
                    proof {
                        if self.hand.total() > 0 && self.num_trades_offered_this_turn
                            < MAX_TRADES_PER_TURN {
                            assert(out@.contains(sw) && is_trade_sentinel(sw));
                        } else {
                            assert forall|a: Request| #[trigger] out@.contains(a)
                                implies !is_trade_sentinel(a) by {}
                        }
                    }
                }
            },
            PlayerState::Stealing => {
                self.push_steal_targets(board, game.robber_index, &mut out);
            },
            PlayerState::WaitForTurn => {
                if self.num_to_discard > 0 {
                    out.push(Request::Discard(Vec::new()));
                    proof {
                        assert(out@.contains(out@[0]) && is_discard_sentinel(out@[0]));
                    }
                } else {
                    match &game.current_trade {
                        Some(t) => match &t.with {
                            TradeWith::Players(ps) => {
                                if !self.has_declined_trade && self.can_afford(&t.getting)
                                    && crate::game::id_vec_contains(ps, self.id) {
                                    out.push(Request::AcceptTrade);
                                    out.push(Request::DeclineTrade);
                                }
                            },
                            TradeWith::Bank => {},
                        },
                        None => {},
                    }
                }
            },
            PlayerState::WaitForTradeResponses => {
                out.push(Request::CancelTrade);
            },
        }
        out
    }
}

impl Game {
    /// The legal actions for the named player; nothing when the id is
    /// unknown.
    pub fn available_actions(&self, me: PlayerId) -> (out: Option<Vec<Request>>)
        requires
            self.wf(),
        ensures
            (out is Some) <==> self.has_player(me),
            out matches Some(v) ==> forall|a: Request|
                #[trigger] v@.contains(a) ==> in_catalog(*self, self.spec_player(me), a),
            out matches Some(v) ==> forall|a: Request|
                in_catalog(*self, self.spec_player(me), a) && non_sentinel_shape(a)
                    ==> #[trigger] v@.contains(a),
            out matches Some(v) ==> (holds_discard_sentinel(v@) <==> discard_sentinel_available(
                *self,
                self.spec_player(me),
            )),
            out matches Some(v) ==> (holds_trade_sentinel(v@) <==> trade_sentinel_available(
                *self,
                self.spec_player(me),
            )),
    {
        match self.find_player(me) {
            None => None,
            Some(i) => {
                proof {
                    assert(self.spec_player(me) == self.players@[i as int]);
                }
                let v = self.players[i].available_actions(self);
                Some(v)
            },
        }
    }
}

/// The catalog holds the discard placeholder: the player owes a
/// discard from the last rolled seven.
pub open spec fn discard_sentinel_available(g: Game, p: Player) -> bool {
    &&& g.spec_winner() is None
    &&& (p.state == PlayerState::AfterRollingSeven || p.state == PlayerState::WaitForTurn)
    &&& p.num_to_discard > 0
}

/// The catalog holds the trade-offer placeholder: mid-turn, after the
/// roll, with a non-empty hand and the per-turn cap not hit.
pub open spec fn trade_sentinel_available(g: Game, p: Player) -> bool {
    &&& g.spec_winner() is None
    &&& p.state == PlayerState::Root
    &&& g.round_number() > 1
    &&& g.has_rolled
    &&& p.hand.total() > 0
    &&& p.num_trades_offered_this_turn < MAX_TRADES_PER_TURN
}

/// The list holds some discard placeholder.
pub open spec fn holds_discard_sentinel(v: Seq<Request>) -> bool {
    exists|a: Request| #[trigger] v.contains(a) && is_discard_sentinel(a)
}

/// The list holds some trade-offer placeholder.
pub open spec fn holds_trade_sentinel(v: Seq<Request>) -> bool {
    exists|a: Request| #[trigger] v.contains(a) && is_trade_sentinel(a)
}

/// An action that is not one of the two content-free placeholders.
pub open spec fn non_sentinel_shape(a: Request) -> bool {
    match a {
        Request::Discard(_) => false,
        Request::OfferTrade(_) => false,
        _ => true,
    }
}

/// Catalog membership as the move resolver checks it: a discard or a
/// trade offer matches its content-free placeholder, everything else
/// must appear verbatim.
pub open spec fn sentinel_legal(g: Game, p: Player, a: Request) -> bool {
    match a {
        Request::Discard(_) => discard_sentinel_available(g, p),
        Request::OfferTrade(_) => trade_sentinel_available(g, p),
        _ => in_catalog(g, p, a),
    }
}

} // verus!
