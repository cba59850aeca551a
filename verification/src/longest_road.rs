use vstd::prelude::*;

use crate::board::Board;
use crate::board::shift_ok;
use crate::board::shifted;
use crate::board::spec_jr_off;
use crate::index::Index;
use crate::player::PlayerId;

verus! {

broadcast use vstd::seq_lib::lemma_seq_contains_after_push;

/// The longest-road search walks, from a road, through one of six
/// junction offsets and then one of six road offsets: candidate step
/// number `k` (0..36) names one such pair of offsets.  `lp_jidx` is the
/// junction passed through, `lp_ridx` the road stepped onto.
pub open spec fn lp_jidx(origin: Index, k: int) -> Index {
    shifted(origin, spec_jr_off(k / 6).0, spec_jr_off(k / 6).1)
}

pub open spec fn lp_ridx(origin: Index, k: int) -> Index {
    shifted(lp_jidx(origin, k), spec_jr_off(k % 6).0, spec_jr_off(k % 6).1)
}

/// Whether candidate step `k` out of road `origin` is walkable: the
/// intervening junction exists and is not a rival's, it is not the
/// junction the walk just came through, and the road stepped onto
/// exists, belongs to the walked set, and has not been visited on this
/// path.
pub open spec fn lp_cand_ok(
    b: Board,
    me: PlayerId,
    roads: Set<Index>,
    origin: Index,
    last: Option<Index>,
    v1: Set<Index>,
    k: int,
) -> bool {
    let jo = spec_jr_off(k / 6);
    let ro = spec_jr_off(k % 6);
    &&& shift_ok(origin, jo.0, jo.1)
    &&& match b.junction_at(lp_jidx(origin, k)) {
        Some(j) => j.owner is None || j.owner == Some(me),
        None => false,
    }
    &&& last != Some(lp_jidx(origin, k))
    &&& shift_ok(lp_jidx(origin, k), ro.0, ro.1)
    &&& b.road_at(lp_ridx(origin, k)) is Some
    &&& roads.contains(lp_ridx(origin, k))
    &&& !v1.contains(lp_ridx(origin, k))
}

/// Length of the longest simple path that starts by standing on road
/// `origin` (not yet counted in `visited`) and keeps walking over roads
/// of `roads`.  The count includes every road visited so far plus the
/// origin.
pub open spec fn lp_from(
    b: Board,
    me: PlayerId,
    roads: Set<Index>,
    origin: Index,
    last: Option<Index>,
    visited: Set<Index>,
) -> nat
    decreases roads.len() - visited.len(), 0int,
        when roads.finite() && visited.finite() && visited.subset_of(roads) && roads.contains(
            origin,
        ) && !visited.contains(origin)
    via lp_from_via
{
    lp_best(b, me, roads, origin, last, visited.insert(origin), 0)
}

#[via_fn]
proof fn lp_from_via(
    b: Board,
    me: PlayerId,
    roads: Set<Index>,
    origin: Index,
    last: Option<Index>,
    visited: Set<Index>,
) {
    if roads.finite() && visited.finite() && visited.subset_of(roads) && roads.contains(origin)
        && !visited.contains(origin) {
        vstd::set::axiom_set_insert_len(visited, origin);
        vstd::set_lib::lemma_len_subset(visited.insert(origin), roads);
    }
}

/// The best path length over candidate steps `k..36` out of `origin`,
/// with `v1` already visited; `v1.len()` when no further step works.
pub open spec fn lp_best(
    b: Board,
    me: PlayerId,
    roads: Set<Index>,
    origin: Index,
    last: Option<Index>,
    v1: Set<Index>,
    k: int,
) -> nat
    decreases roads.len() - v1.len(), 37 - k,
        when roads.finite() && v1.finite() && v1.subset_of(roads) && 0 <= k <= 36
    via lp_best_via
{
    if k >= 36 {
        v1.len()
    } else {
        let rest = lp_best(b, me, roads, origin, last, v1, k + 1);
        if lp_cand_ok(b, me, roads, origin, last, v1, k) {
            let sub = lp_from(b, me, roads, lp_ridx(origin, k), Some(lp_jidx(origin, k)), v1);
            if sub > rest {
                sub
            } else {
                rest
            }
        } else {
            rest
        }
    }
}

#[via_fn]
proof fn lp_best_via(
    b: Board,
    me: PlayerId,
    roads: Set<Index>,
    origin: Index,
    last: Option<Index>,
    v1: Set<Index>,
    k: int,
) {
    if roads.finite() && v1.finite() && v1.subset_of(roads) && 0 <= k <= 36 {
        vstd::set_lib::lemma_len_subset(v1, roads);
    }
}

/// The best length over the starting roads `roads[i..]`; 0 when none is
/// left.  The overall longest road is `lr_best(.., 0)`.
pub open spec fn lr_best(b: Board, me: PlayerId, roads: Seq<Index>, i: int) -> nat
    decreases roads.len() - i,
        when 0 <= i <= roads.len()
{
    if i >= roads.len() {
        0
    } else {
        let here = lp_from(b, me, roads.to_set(), roads[i], None, Set::empty());
        let rest = lr_best(b, me, roads, i + 1);
        if here > rest {
            here
        } else {
            rest
        }
    }
}

/// When everything in `roads` is already visited, no candidate step
/// works, and the suffix best is just the visited count.
proof fn lemma_lp_best_saturated(
    b: Board,
    me: PlayerId,
    roads: Set<Index>,
    origin: Index,
    last: Option<Index>,
    v1: Set<Index>,
    k: int,
)
    requires
        roads.finite(),
        v1 == roads,
        0 <= k <= 36,
    ensures
        lp_best(b, me, roads, origin, last, v1, k) == v1.len(),
    decreases 36 - k,
{
    if k < 36 {
        assert(!lp_cand_ok(b, me, roads, origin, last, v1, k));
        lemma_lp_best_saturated(b, me, roads, origin, last, v1, k + 1);
    }
}

/// The suffix best never drops below the visited count: the base case
/// of the search is the size of the path walked so far.
proof fn lemma_lp_best_lower(
    b: Board,
    me: PlayerId,
    roads: Set<Index>,
    origin: Index,
    last: Option<Index>,
    v1: Set<Index>,
    k: int,
)
    requires
        roads.finite(),
        v1.finite(),
        v1.subset_of(roads),
        0 <= k <= 36,
    ensures
        lp_best(b, me, roads, origin, last, v1, k) >= v1.len(),
    decreases 36 - k,
{
    if k < 36 {
        lemma_lp_best_lower(b, me, roads, origin, last, v1, k + 1);
    }
}

/// A freshly allocated copy of a coordinate list.
pub(crate) fn copy_indices(v: &Vec<Index>) -> (out: Vec<Index>)
    ensures
        out@ == v@,
{
    let mut out: Vec<Index> = Vec::new();
    let mut i: usize = 0;
    while i < v.len()
        invariant
            i <= v.len(),
            out@ == v@.take(i as int),
        decreases v.len() - i,
    {
        out.push(v[i]);
        proof {
            assert(out@ =~= v@.take(i + 1 as int));
        }
        i += 1;
    }
    proof {
        assert(out@ =~= v@);
    }
    out
}

fn jr_off(k: usize) -> (o: (i32, i32))
    requires
        k < 6,
    ensures
        o.0 == spec_jr_off(k as int).0,
        o.1 == spec_jr_off(k as int).1,
{
    if k == 0 {
        (-1, 0)
    } else if k == 1 {
        (-1, 1)
    } else if k == 2 {
        (1, 1)
    } else if k == 3 {
        (1, 0)
    } else if k == 4 {
        (1, -1)
    } else {
        (-1, -1)
    }
}

/// The shifted coordinate, when it stays on the non-negative 16-bit grid.
pub(crate) fn shift_index(o: &Index, dx: i32, dy: i32) -> (t: Option<Index>)
    requires
        -3 <= dx <= 3,
        -3 <= dy <= 3,
    ensures
        match t {
            Some(ti) => shift_ok(*o, dx as int, dy as int) && ti == shifted(
                *o,
                dx as int,
                dy as int,
            ),
            None => !shift_ok(*o, dx as int, dy as int),
        },
{
    let nx = o.x as i32 + dx;
    let ny = o.y as i32 + dy;
    if 0 <= nx && nx <= 65535 && 0 <= ny && ny <= 65535 {
        Some(Index::new(nx as u16, ny as u16))
    } else {
        None
    }
}

impl Board {
    /// One recursion step of the longest-road search: the longest simple
    /// path standing on `origin`, having already walked `visited`, never
    /// backtracking through `last`.
    #[verifier::loop_isolation(false)]
    fn longest_path_starting_from(
        &self,
        origin: Index,
        last: Option<Index>,
        me: PlayerId,
        roads: &Vec<Index>,
        visited: Vec<Index>,
    ) -> (n: usize)
        requires
            roads@.no_duplicates(),
            visited@.no_duplicates(),
            visited@.to_set().subset_of(roads@.to_set()),
            roads@.to_set().contains(origin),
            !visited@.to_set().contains(origin),
        ensures
            n == lp_from(*self, me, roads@.to_set(), origin, last, visited@.to_set()),
        decreases roads@.len() - visited@.len(),
    {
        let ghost roadset = roads@.to_set();
        let ghost vset = visited@.to_set();
        proof {
            visited@.unique_seq_to_set();
            roads@.unique_seq_to_set();
            vstd::set_lib::lemma_len_subset(vset, roadset);
        }
        let mut v1 = copy_indices(&visited);
        proof {
            assert(!v1@.contains(origin));
        }
        v1.push(origin);
        let ghost v1s = v1@.to_set();
        proof {
            assert forall|q: Index| v1@.contains(q) implies #[trigger] vset.insert(
                origin,
            ).contains(q) by {
                let i = choose|i: int| 0 <= i < v1@.len() && v1@[i] == q;
                if i < v1@.len() - 1 {
                    assert(visited@[i] == q);
                }
            };
            assert forall|q: Index| vset.insert(origin).contains(q) implies #[trigger] v1@
                .contains(q) by {
                if vset.contains(q) {
                    let i = choose|i: int| 0 <= i < visited@.len() && visited@[i] == q;
                    assert(v1@[i] == q);
                } else {
                    assert(v1@[v1@.len() - 1] == q);
                }
            };
            assert(v1s =~= vset.insert(origin));
            assert forall|i: int, j: int|
                0 <= i < v1@.len() && 0 <= j < v1@.len() && i != j implies v1@[i] != v1@[j] by {
                if i < v1@.len() - 1 && j < v1@.len() - 1 {
                    assert(visited@[i] != visited@[j]);
                } else if i < v1@.len() - 1 {
                    assert(visited@.contains(visited@[i]));
                } else if j < v1@.len() - 1 {
                    assert(visited@.contains(visited@[j]));
                }
            };
            v1@.unique_seq_to_set();
            assert(v1s.len() == v1@.len());
            assert(v1s.subset_of(roadset));
        }
        let mut best: usize = v1.len();
        let ghost target = lp_from(*self, me, roadset, origin, last, vset);
        proof {
            assert(target == lp_best(*self, me, roadset, origin, last, v1s, 0));
            lemma_lp_best_lower(*self, me, roadset, origin, last, v1s, 0);
        }
        let mut k: usize = 0;
        while k < 36
            invariant
                0 <= k <= 36,
                roads@.no_duplicates(),
                v1@.no_duplicates(),
                v1s == v1@.to_set(),
                v1s.len() == v1@.len(),
                v1s.subset_of(roadset),
                roadset == roads@.to_set(),
                roadset.len() <= roads@.len(),
                best >= v1@.len(),
                target == if best >= lp_best(*self, me, roadset, origin, last, v1s, k as int) {
                    best as nat
                } else {
                    lp_best(*self, me, roadset, origin, last, v1s, k as int)
                },
            decreases 36 - k,
        {
            let ghost prev = lp_best(*self, me, roadset, origin, last, v1s, k as int);
            let ghost next = lp_best(*self, me, roadset, origin, last, v1s, k as int + 1);
            let (jdx, jdy) = jr_off(k / 6);
            let (rdx, rdy) = jr_off(k % 6);
            let mut cand_val: Option<usize> = None;
            if let Some(jt) = shift_index(&origin, jdx, jdy) {
                let j_ok = match self.get_junction(&jt) {
                    Some(j) => match j.owner {
                        None => true,
                        Some(o) => o == me,
                    },
                    None => false,
                };
                let not_back = match last {
                    Some(lj) => !(lj == jt),
                    None => true,
                };
                if j_ok && not_back {
                    if let Some(rt) = shift_index(&jt, rdx, rdy) {
                        if self.get_road(&rt).is_some() && crate::index::index_vec_contains(
                            roads,
                            rt,
                        ) && !crate::index::index_vec_contains(&v1, rt) {
                            proof {
                                assert(jt == lp_jidx(origin, k as int));
                                assert(rt == lp_ridx(origin, k as int));
                                assert(lp_cand_ok(
                                    *self,
                                    me,
                                    roadset,
                                    origin,
                                    last,
                                    v1s,
                                    k as int,
                                ));
                                vstd::set_lib::lemma_len_subset(v1s, roadset);
                            }
                            let v2 = copy_indices(&v1);
                            let sub = self.longest_path_starting_from(
                                rt,
                                Some(jt),
                                me,
                                roads,
                                v2,
                            );
                            cand_val = Some(sub);
                        }
                    }
                }
            }
            proof {
                if cand_val is None {
                    assert(!lp_cand_ok(*self, me, roadset, origin, last, v1s, k as int));
                    assert(prev == next);
                }
            }
            if let Some(sub) = cand_val {
                if sub > best {
                    best = sub;
                }
                proof {
                    assert(prev == if lp_from(
                        *self,
                        me,
                        roadset,
                        lp_ridx(origin, k as int),
                        Some(lp_jidx(origin, k as int)),
                        v1s,
                    ) > next {
                        lp_from(
                            *self,
                            me,
                            roadset,
                            lp_ridx(origin, k as int),
                            Some(lp_jidx(origin, k as int)),
                            v1s,
                        )
                    } else {
                        next
                    });
                }
            }
            k += 1;
        }
        proof {
            assert(lp_best(*self, me, roadset, origin, last, v1s, 36) == v1s.len());
        }
        best
    }

    /// The longest simple chain of roads of `my_roads` that a player can
    /// walk without passing through a rival settlement and without
    /// reusing a road on one path.  A player with no roads scores 0; a
    /// single road scores 1.
    #[verifier::loop_isolation(false)]
    pub fn longest_road(&self, me: PlayerId, my_roads: &Vec<Index>) -> (n: usize)
        requires
            my_roads@.no_duplicates(),
        ensures
            n == lr_best(*self, me, my_roads@, 0),
            my_roads@.len() == 0 ==> n == 0,
            my_roads@.len() == 1 ==> n == 1,
    {
        let ghost roadset = my_roads@.to_set();
        proof {
            my_roads@.unique_seq_to_set();
        }
        let mut best: usize = 0;
        let ghost target = lr_best(*self, me, my_roads@, 0);
        let mut i: usize = 0;
        while i < my_roads.len()
            invariant
                0 <= i <= my_roads@.len(),
                my_roads@.no_duplicates(),
                roadset == my_roads@.to_set(),
                roadset.len() == my_roads@.len(),
                best <= my_roads@.len(),
                target == if best >= lr_best(*self, me, my_roads@, i as int) {
                    best as nat
                } else {
                    lr_best(*self, me, my_roads@, i as int)
                },
            decreases my_roads@.len() - i,
        {
            let ghost next = lr_best(*self, me, my_roads@, i as int + 1);
            let start = my_roads[i];
            proof {
                assert(my_roads@.contains(my_roads@[i as int]));
                assert(roadset.contains(start));
                assert(Set::<Index>::empty().subset_of(roadset));
            }
            let sub = self.longest_path_starting_from(start, None, me, my_roads, Vec::new());
            proof {
                assert(Seq::<Index>::empty().to_set() =~= Set::<Index>::empty());
                lemma_lp_sub_bounded(*self, me, roadset, start, None, Set::empty());
                assert(sub == lp_from(*self, me, roadset, start, None, Set::empty()));
                assert(lr_best(*self, me, my_roads@, i as int) == if lp_from(
                    *self,
                    me,
                    roadset,
                    my_roads@[i as int],
                    None,
                    Set::empty(),
                ) > next {
                    lp_from(*self, me, roadset, my_roads@[i as int], None, Set::empty())
                } else {
                    next
                });
            }
            if sub > best {
                best = sub;
            }
            i += 1;
        }
        proof {
            if my_roads@.len() == 1 {
                let start = my_roads@[0];
                assert(Set::<Index>::empty().insert(start) =~= roadset);
                lemma_lp_best_saturated(
                    *self,
                    me,
                    roadset,
                    start,
                    None,
                    Set::<Index>::empty().insert(start),
                    0,
                );
                assert(lp_from(*self, me, roadset, start, None, Set::empty()) == 1);
            }
        }
        best
    }
}

/// Every path the search can walk visits distinct roads of the walked
/// set, so its length never exceeds the size of that set.
proof fn lemma_lp_sub_bounded(
    b: Board,
    me: PlayerId,
    roads: Set<Index>,
    origin: Index,
    last: Option<Index>,
    visited: Set<Index>,
)
    requires
        roads.finite(),
        visited.finite(),
        visited.subset_of(roads),
        roads.contains(origin),
        !visited.contains(origin),
    ensures
        lp_from(b, me, roads, origin, last, visited) <= roads.len(),
    decreases roads.len() - visited.len(), 0int,
{
    vstd::set::axiom_set_insert_len(visited, origin);
    vstd::set_lib::lemma_len_subset(visited.insert(origin), roads);
    lemma_lp_best_bounded(b, me, roads, origin, last, visited.insert(origin), 0);
}

proof fn lemma_lp_best_bounded(
    b: Board,
    me: PlayerId,
    roads: Set<Index>,
    origin: Index,
    last: Option<Index>,
    v1: Set<Index>,
    k: int,
)
    requires
        roads.finite(),
        v1.finite(),
        v1.subset_of(roads),
        0 <= k <= 36,
    ensures
        lp_best(b, me, roads, origin, last, v1, k) <= roads.len(),
    decreases roads.len() - v1.len(), 37 - k,
{
    vstd::set_lib::lemma_len_subset(v1, roads);
    if k < 36 {
        lemma_lp_best_bounded(b, me, roads, origin, last, v1, k + 1);
        if lp_cand_ok(b, me, roads, origin, last, v1, k) {
            lemma_lp_sub_bounded(b, me, roads, lp_ridx(origin, k), Some(lp_jidx(origin, k)), v1);
        }
    }
}

} // verus!
