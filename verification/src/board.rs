use vstd::prelude::*;

use crate::hex::Hex;
use crate::index::Index;
use crate::junction::Junction;
use crate::player::PlayerId;
use crate::road::Road;

verus! {

broadcast use vstd::seq_lib::lemma_seq_contains_after_push;

/// A board cell: a hex, a junction, or a road slot.  Coordinates fall
/// into disjoint families, so each grid cell holds at most one kind.
#[derive(Clone, Debug, PartialEq, Eq)]
pub enum Node {
    Hex(Hex),
    Junction(Junction),
    Road(Road),
}

/// Which fixed board layout a match is played on.
#[derive(Clone, Copy, Debug, PartialEq, Eq, Hash, Structural)]
pub enum BoardType {
    Standard,
}

pub type Nodes = Vec<Vec<Option<Node>>>;

/// The board: a fixed-shape grid of optional nodes.  The structure
/// (which coordinate holds which node kind) never changes after the
/// factory builds it; only ownership and building flags mutate.
#[derive(Clone, Debug)]
pub struct Board {
    pub board_type: BoardType,
    pub nodes: Nodes,
}

/// The coordinate stored inside a node.
pub open spec fn node_index(n: Node) -> Index {
    match n {
        Node::Hex(h) => h.index,
        Node::Junction(j) => j.index,
        Node::Road(r) => r.index,
    }
}

/// Whether the shift of `o` by `(dx, dy)` stays on the non-negative
/// coordinate grid.
pub open spec fn shift_ok(o: Index, dx: int, dy: int) -> bool {
    0 <= o.x + dx <= u16::MAX && 0 <= o.y + dy <= u16::MAX
}

/// The coordinate `o` shifted by `(dx, dy)` (meaningful under `shift_ok`).
pub open spec fn shifted(o: Index, dx: int, dy: int) -> Index {
    Index { x: (o.x + dx) as u16, y: (o.y + dy) as u16 }
}

/// `t` is `o` shifted by `(dx, dy)`.
pub open spec fn adj1(o: Index, t: Index, dx: int, dy: int) -> bool {
    shift_ok(o, dx, dy) && t == shifted(o, dx, dy)
}

/// The hex <-> junction neighborhood: six fixed coordinate offsets.
pub open spec fn hj_adjacent(o: Index, t: Index) -> bool {
    ||| adj1(o, t, -3, 0)
    ||| adj1(o, t, -1, 2)
    ||| adj1(o, t, 1, 2)
    ||| adj1(o, t, 3, 0)
    ||| adj1(o, t, 1, -2)
    ||| adj1(o, t, -1, -2)
}

/// The junction <-> junction neighborhood: six fixed coordinate offsets.
pub open spec fn jj_adjacent(o: Index, t: Index) -> bool {
    ||| adj1(o, t, -2, 0)
    ||| adj1(o, t, -2, 2)
    ||| adj1(o, t, 2, 2)
    ||| adj1(o, t, 2, 0)
    ||| adj1(o, t, 2, -2)
    ||| adj1(o, t, -2, -2)
}

/// The junction <-> road offsets, one at a time, in the fixed order the
/// search walks them.
pub open spec fn spec_jr_off(k: int) -> (int, int) {
    if k == 0 {
        (-1, 0)
    } else if k == 1 {
        (-1, 1)
    } else if k == 2 {
        (1, 1)
    } else if k == 3 {
        (1, 0)
    } else if k == 4 {
        (1, -1)
    } else {
        (-1, -1)
    }
}

/// The junction <-> road neighborhood: six fixed coordinate offsets.
pub open spec fn jr_adjacent(o: Index, t: Index) -> bool {
    ||| adj1(o, t, -1, 0)
    ||| adj1(o, t, -1, 1)
    ||| adj1(o, t, 1, 1)
    ||| adj1(o, t, 1, 0)
    ||| adj1(o, t, 1, -1)
    ||| adj1(o, t, -1, -1)
}

/// Distinct offsets shift one origin to distinct targets.
pub proof fn lemma_shifted_distinct(o: Index, dx1: int, dy1: int, dx2: int, dy2: int)
    requires
        shift_ok(o, dx1, dy1),
        shift_ok(o, dx2, dy2),
        dx1 != dx2 || dy1 != dy2,
    ensures
        shifted(o, dx1, dy1) != shifted(o, dx2, dy2),
{
}

impl Board {
    /// The node stored at a coordinate; `None` off the grid.
    pub open spec fn node_at(self, idx: Index) -> Option<Node> {
        if idx.x < self.nodes@.len() && idx.y < self.nodes@[idx.x as int]@.len() {
            self.nodes@[idx.x as int]@[idx.y as int]
        } else {
            None
        }
    }

    pub open spec fn hex_at(self, idx: Index) -> Option<Hex> {
        match self.node_at(idx) {
            Some(Node::Hex(h)) => Some(h),
            _ => None,
        }
    }

    pub open spec fn junction_at(self, idx: Index) -> Option<Junction> {
        match self.node_at(idx) {
            Some(Node::Junction(j)) => Some(j),
            _ => None,
        }
    }

    pub open spec fn road_at(self, idx: Index) -> Option<Road> {
        match self.node_at(idx) {
            Some(Node::Road(r)) => Some(r),
            _ => None,
        }
    }

    /// The grid is small enough that every cell is addressable by a
    /// 16-bit coordinate pair.
    pub open spec fn grid_bounded(self) -> bool {
        &&& self.nodes@.len() <= 0x10000
        &&& forall|x: int|
            0 <= x < self.nodes@.len() ==> (#[trigger] self.nodes@[x])@.len() <= 0x10000
    }

    /// Every stored node records the coordinate of its own grid cell.
    pub open spec fn nodes_indexed(self) -> bool {
        forall|idx: Index| (#[trigger] self.node_at(idx)) matches Some(n) ==> node_index(n) == idx
    }

    pub fn get_node(&self, index: &Index) -> (out: Option<&Node>)
        ensures
            match out {
                Some(n) => self.node_at(*index) == Some(*n),
                None => self.node_at(*index) is None,
            },
    {
        let x = index.x as usize;
        let y = index.y as usize;
        if x < self.nodes.len() && y < self.nodes[x].len() {
            self.nodes[x][y].as_ref()
        } else {
            None
        }
    }

    pub fn get_hex(&self, index: &Index) -> (out: Option<&Hex>)
        ensures
            match out {
                Some(h) => self.hex_at(*index) == Some(*h),
                None => self.hex_at(*index) is None,
            },
    {
        match self.get_node(index) {
            Some(Node::Hex(h)) => Some(h),
            _ => None,
        }
    }

    pub fn get_junction(&self, index: &Index) -> (out: Option<&Junction>)
        ensures
            match out {
                Some(j) => self.junction_at(*index) == Some(*j),
                None => self.junction_at(*index) is None,
            },
    {
        match self.get_node(index) {
            Some(Node::Junction(j)) => Some(j),
            _ => None,
        }
    }

    pub fn get_road(&self, index: &Index) -> (out: Option<&Road>)
        ensures
            match out {
                Some(r) => self.road_at(*index) == Some(*r),
                None => self.road_at(*index) is None,
            },
    {
        match self.get_node(index) {
            Some(Node::Road(r)) => Some(r),
            _ => None,
        }
    }

    /// The two boards have the same grid shape.
    pub open spec fn same_shape(self, o: Board) -> bool {
        &&& o.nodes@.len() == self.nodes@.len()
        &&& forall|x: int|
            0 <= x < self.nodes@.len() ==> (#[trigger] o.nodes@[x])@.len() == self.nodes@[x]@.len()
    }

    /// `o` is `self` with the single cell at `idx` replaced by `n`.
    pub open spec fn updated_at(self, o: Board, idx: Index, n: Node) -> bool {
        &&& o.board_type == self.board_type
        &&& self.same_shape(o)
        &&& o.node_at(idx) == Some(n)
        &&& forall|q: Index| q != idx ==> #[trigger] o.node_at(q) == self.node_at(q)
    }

    /// Replaces the junction at `index`, leaving every other cell alone.
    /// Returns whether a junction was there to replace.
    pub fn set_junction(&mut self, index: &Index, j: Junction) -> (ok: bool)
        ensures
            ok == (old(self).junction_at(*index) is Some),
            ok ==> old(self).updated_at(*final(self), *index, Node::Junction(j)),
            !ok ==> *final(self) == *old(self),
    {
        let x = index.x as usize;
        let y = index.y as usize;
        if x < self.nodes.len() && y < self.nodes[x].len() {
            let is_j = matches!(&self.nodes[x][y], Some(Node::Junction(_)));
            if is_j {
                let row = &mut self.nodes[x];
                row.set(y, Some(Node::Junction(j)));
                proof {
                    assert forall|q: Index| q != *index implies #[trigger] final(self).node_at(q)
                        == old(self).node_at(q) by {
                        if q.x == index.x {
                            assert(q.y != index.y);
                        }
                    };
                }
                return true;
            }
        }
        false
    }

    /// Replaces the road at `index`, leaving every other cell alone.
    /// Returns whether a road was there to replace.
    pub fn set_road(&mut self, index: &Index, r: Road) -> (ok: bool)
        ensures
            ok == (old(self).road_at(*index) is Some),
            ok ==> old(self).updated_at(*final(self), *index, Node::Road(r)),
            !ok ==> *final(self) == *old(self),
    {
        let x = index.x as usize;
        let y = index.y as usize;
        if x < self.nodes.len() && y < self.nodes[x].len() {
            let is_r = matches!(&self.nodes[x][y], Some(Node::Road(_)));
            if is_r {
                let row = &mut self.nodes[x];
                row.set(y, Some(Node::Road(r)));
                proof {
                    assert forall|q: Index| q != *index implies #[trigger] final(self).node_at(q)
                        == old(self).node_at(q) by {
                        if q.x == index.x {
                            assert(q.y != index.y);
                        }
                    };
                }
                return true;
            }
        }
        false
    }

    /// Roads may pass through a junction that is unowned or owned by the
    /// same player; a rival settlement blocks the way.
    pub open spec fn spec_can_build_road_thru(self, me: PlayerId, idx: Index) -> bool {
        match self.junction_at(idx) {
            Some(j) => match j.owner {
                None => true,
                Some(owner) => owner == me,
            },
            None => false,
        }
    }

    pub fn can_build_road_thru(&self, me: &PlayerId, index: &Index) -> (out: bool)
        ensures
            out == self.spec_can_build_road_thru(*me, *index),
    {
        match self.get_junction(index) {
            Some(j) => match j.owner {
                None => true,
                Some(owner) => owner == *me,
            },
            None => false,
        }
    }

    /// Appends the junction at `origin` shifted by `(dx, dy)`, if that
    /// cell holds one.
    fn push_junction_shift(&self, out: &mut Vec<Junction>, origin: &Index, dx: i32, dy: i32)
        requires
            -3 <= dx <= 3,
            -3 <= dy <= 3,
        ensures
            if shift_ok(*origin, dx as int, dy as int) {
                match self.junction_at(shifted(*origin, dx as int, dy as int)) {
                    Some(j) => final(out)@ == old(out)@.push(j),
                    None => final(out)@ == old(out)@,
                }
            } else {
                final(out)@ == old(out)@
            },
    {
        let nx = origin.x as i32 + dx;
        let ny = origin.y as i32 + dy;
        if 0 <= nx && nx <= 65535 && 0 <= ny && ny <= 65535 {
            let t = Index::new(nx as u16, ny as u16);
            if let Some(j) = self.get_junction(&t) {
                out.push(*j);
            }
        }
    }

    /// Appends the road at `origin` shifted by `(dx, dy)`, if that cell
    /// holds one.
    fn push_road_shift(&self, out: &mut Vec<Road>, origin: &Index, dx: i32, dy: i32)
        requires
            -3 <= dx <= 3,
            -3 <= dy <= 3,
        ensures
            if shift_ok(*origin, dx as int, dy as int) {
                match self.road_at(shifted(*origin, dx as int, dy as int)) {
                    Some(r) => final(out)@ == old(out)@.push(r),
                    None => final(out)@ == old(out)@,
                }
            } else {
                final(out)@ == old(out)@
            },
    {
        let nx = origin.x as i32 + dx;
        let ny = origin.y as i32 + dy;
        if 0 <= nx && nx <= 65535 && 0 <= ny && ny <= 65535 {
            let t = Index::new(nx as u16, ny as u16);
            if let Some(r) = self.get_road(&t) {
                out.push(*r);
            }
        }
    }

    /// Appends the hex at `origin` shifted by `(dx, dy)`, if that cell
    /// holds one.
    fn push_hex_shift(&self, out: &mut Vec<Hex>, origin: &Index, dx: i32, dy: i32)
        requires
            -3 <= dx <= 3,
            -3 <= dy <= 3,
        ensures
            if shift_ok(*origin, dx as int, dy as int) {
                match self.hex_at(shifted(*origin, dx as int, dy as int)) {
                    Some(h) => final(out)@ == old(out)@.push(h),
                    None => final(out)@ == old(out)@,
                }
            } else {
                final(out)@ == old(out)@
            },
    {
        let nx = origin.x as i32 + dx;
        let ny = origin.y as i32 + dy;
        if 0 <= nx && nx <= 65535 && 0 <= ny && ny <= 65535 {
            let t = Index::new(nx as u16, ny as u16);
            if let Some(h) = self.get_hex(&t) {
                out.push(*h);
            }
        }
    }

    /// The junctions on the six road-neighborhood offsets around a road.
    pub fn junction_neighbors_of_road(&self, origin: &Index) -> (out: Vec<Junction>)
        requires
            self.nodes_indexed(),
        ensures
            forall|j: Junction| #[trigger] out@.contains(j) <==> (jr_adjacent(*origin, j.index)
                && self.junction_at(j.index) == Some(j)),
            out@.len() <= 6,
            out@.no_duplicates(),
    {
        let mut out: Vec<Junction> = Vec::new();
        self.push_junction_shift(&mut out, origin, -1, 0);
        self.push_junction_shift(&mut out, origin, -1, 1);
        self.push_junction_shift(&mut out, origin, 1, 1);
        self.push_junction_shift(&mut out, origin, 1, 0);
        self.push_junction_shift(&mut out, origin, 1, -1);
        self.push_junction_shift(&mut out, origin, -1, -1);
        proof {
            assert(out@.no_duplicates());
        }
        out
    }

    /// The roads on the six road-neighborhood offsets around a junction.
    pub fn road_neighbors_of_junction(&self, origin: &Index) -> (out: Vec<Road>)
        requires
            self.nodes_indexed(),
        ensures
            forall|r: Road| #[trigger] out@.contains(r) <==> (jr_adjacent(*origin, r.index)
                && self.road_at(r.index) == Some(r)),
            out@.len() <= 6,
            out@.no_duplicates(),
    {
        let mut out: Vec<Road> = Vec::new();
        self.push_road_shift(&mut out, origin, -1, 0);
        self.push_road_shift(&mut out, origin, -1, 1);
        self.push_road_shift(&mut out, origin, 1, 1);
        self.push_road_shift(&mut out, origin, 1, 0);
        self.push_road_shift(&mut out, origin, 1, -1);
        self.push_road_shift(&mut out, origin, -1, -1);
        proof {
            assert(out@.no_duplicates());
        }
        out
    }

    /// The junctions on the six junction-neighborhood offsets around a
    /// junction.
    pub fn junction_neighbors_of_junction(&self, origin: &Index) -> (out: Vec<Junction>)
        requires
            self.nodes_indexed(),
        ensures
            forall|j: Junction| #[trigger] out@.contains(j) <==> (jj_adjacent(*origin, j.index)
                && self.junction_at(j.index) == Some(j)),
            out@.len() <= 6,
            out@.no_duplicates(),
    {
        let mut out: Vec<Junction> = Vec::new();
        self.push_junction_shift(&mut out, origin, -2, 0);
        self.push_junction_shift(&mut out, origin, -2, 2);
        self.push_junction_shift(&mut out, origin, 2, 2);
        self.push_junction_shift(&mut out, origin, 2, 0);
        self.push_junction_shift(&mut out, origin, 2, -2);
        self.push_junction_shift(&mut out, origin, -2, -2);
        proof {
            assert(out@.no_duplicates());
        }
        out
    }

    /// The junctions on the six hex-neighborhood offsets around a hex.
    pub fn junction_neighbors_of_hex(&self, origin: &Index) -> (out: Vec<Junction>)
        requires
            self.nodes_indexed(),
        ensures
            forall|j: Junction| #[trigger] out@.contains(j) <==> (hj_adjacent(*origin, j.index)
                && self.junction_at(j.index) == Some(j)),
            out@.len() <= 6,
            out@.no_duplicates(),
    {
        let mut out: Vec<Junction> = Vec::new();
        self.push_junction_shift(&mut out, origin, -3, 0);
        self.push_junction_shift(&mut out, origin, -1, 2);
        self.push_junction_shift(&mut out, origin, 1, 2);
        self.push_junction_shift(&mut out, origin, 3, 0);
        self.push_junction_shift(&mut out, origin, 1, -2);
        self.push_junction_shift(&mut out, origin, -1, -2);
        proof {
            assert(out@.no_duplicates());
        }
        out
    }

    /// The hexes on the six hex-neighborhood offsets around a junction.
    pub fn hex_neighbors_of_junction(&self, origin: &Index) -> (out: Vec<Hex>)
        requires
            self.nodes_indexed(),
        ensures
            forall|h: Hex| #[trigger] out@.contains(h) <==> (hj_adjacent(*origin, h.index)
                && self.hex_at(h.index) == Some(h)),
            out@.len() <= 6,
            out@.no_duplicates(),
    {
        let mut out: Vec<Hex> = Vec::new();
        self.push_hex_shift(&mut out, origin, -3, 0);
        self.push_hex_shift(&mut out, origin, -1, 2);
        self.push_hex_shift(&mut out, origin, 1, 2);
        self.push_hex_shift(&mut out, origin, 3, 0);
        self.push_hex_shift(&mut out, origin, 1, -2);
        self.push_hex_shift(&mut out, origin, -1, -2);
        proof {
            assert(out@.no_duplicates());
        }
        out
    }

    /// Every junction on the board.
    pub fn junctions(&self) -> (out: Vec<Junction>)
        requires
            self.nodes_indexed(),
            self.grid_bounded(),
        ensures
            forall|j: Junction| #[trigger] out@.contains(j) <==> self.junction_at(j.index) == Some(
                j,
            ),
            out@.no_duplicates(),
    {
        let mut out: Vec<Junction> = Vec::new();
        let mut x: usize = 0;
        while x < self.nodes.len()
            invariant
                self.nodes_indexed(),
                self.grid_bounded(),
                x <= self.nodes@.len(),
                forall|j: Junction| #[trigger] out@.contains(j) ==> self.junction_at(j.index)
                    == Some(j),
                out@.no_duplicates(),
                forall|k: int| 0 <= k < out@.len() ==> (#[trigger] out@[k]).index.x < x,
                forall|idx: Index| idx.x < x ==> match self.junction_at(idx) {
                    Some(j) => out@.contains(j),
                    None => true,
                },
            decreases self.nodes@.len() - x,
        {
            let mut y: usize = 0;
            while y < self.nodes[x].len()
                invariant
                    self.nodes_indexed(),
                    self.grid_bounded(),
                    x < self.nodes@.len(),
                    y <= self.nodes@[x as int]@.len(),
                    forall|j: Junction| #[trigger] out@.contains(j) ==> self.junction_at(j.index)
                        == Some(j),
                    out@.no_duplicates(),
                    forall|k: int|
                        0 <= k < out@.len() ==> ((#[trigger] out@[k]).index.x < x || (
                        out@[k].index.x == x && out@[k].index.y < y)),
                    forall|idx: Index| idx.x < x || (idx.x == x && idx.y < y) ==> match self
                        .junction_at(idx) {
                        Some(j) => out@.contains(j),
                        None => true,
                    },
                decreases self.nodes@[x as int]@.len() - y,
            {
                if let Some(Node::Junction(j)) = &self.nodes[x][y] {
                    proof {
                        let idx = Index { x: x as u16, y: y as u16 };
                        assert(self.node_at(idx) == Some(Node::Junction(*j)));
                        assert(j.index == idx);
                        assert forall|k: int| 0 <= k < out@.len() implies out@[k] != *j by {
                            assert((out@[k]).index.x < x || (out@[k].index.x == x
                                && out@[k].index.y < y));
                        };
                    }
                    let ghost pre = out@;
                    out.push(*j);
                    proof {
                        assert forall|a: int, b: int|
                            0 <= a < b < out@.len() implies out@[a] != out@[b] by {
                            if b < pre.len() {
                            } else {
                                assert(out@[b] == *j && out@[a] == pre[a]);
                            }
                        };
                    }
                }
                y += 1;
            }
            x += 1;
        }
        proof {
            assert forall|j: Junction| self.junction_at(j.index) == Some(j) implies #[trigger] out@
                .contains(j) by {
                assert(j.index.x < self.nodes@.len());
            };
        }
        out
    }

    /// Every hex on the board.
    pub fn hexes(&self) -> (out: Vec<Hex>)
        requires
            self.nodes_indexed(),
            self.grid_bounded(),
        ensures
            forall|h: Hex| #[trigger] out@.contains(h) <==> self.hex_at(h.index) == Some(h),
            out@.no_duplicates(),
            (self.nodes@.len() <= 0x100 && (forall|x: int|
                0 <= x < self.nodes@.len() ==> (#[trigger] self.nodes@[x])@.len() <= 0x100))
                ==> out@.len() <= 0x10000,
    {
        let mut out: Vec<Hex> = Vec::new();
        let mut x: usize = 0;
        while x < self.nodes.len()
            invariant
                self.nodes_indexed(),
                self.grid_bounded(),
                x <= self.nodes@.len(),
                (self.nodes@.len() <= 0x100 && (forall|w: int|
                    0 <= w < self.nodes@.len() ==> (#[trigger] self.nodes@[w])@.len() <= 0x100))
                    ==> out@.len() <= x * 0x100,
                forall|h: Hex| #[trigger] out@.contains(h) ==> self.hex_at(h.index) == Some(h),
                out@.no_duplicates(),
                forall|k: int| 0 <= k < out@.len() ==> (#[trigger] out@[k]).index.x < x,
                forall|idx: Index| idx.x < x ==> match self.hex_at(idx) {
                    Some(h) => out@.contains(h),
                    None => true,
                },
            decreases self.nodes@.len() - x,
        {
            let mut y: usize = 0;
            while y < self.nodes[x].len()
                invariant
                    self.nodes_indexed(),
                    self.grid_bounded(),
                    x < self.nodes@.len(),
                    y <= self.nodes@[x as int]@.len(),
                    (self.nodes@.len() <= 0x100 && (forall|w: int|
                        0 <= w < self.nodes@.len() ==> (#[trigger] self.nodes@[w])@.len() <= 0x100))
                        ==> out@.len() <= x * 0x100 + y,
                    forall|h: Hex| #[trigger] out@.contains(h) ==> self.hex_at(h.index) == Some(h),
                    out@.no_duplicates(),
                    forall|k: int|
                        0 <= k < out@.len() ==> ((#[trigger] out@[k]).index.x < x || (
                        out@[k].index.x == x && out@[k].index.y < y)),
                    forall|idx: Index| idx.x < x || (idx.x == x && idx.y < y) ==> match self.hex_at(
                        idx,
                    ) {
                        Some(h) => out@.contains(h),
                        None => true,
                    },
                decreases self.nodes@[x as int]@.len() - y,
            {
                if let Some(Node::Hex(h)) = &self.nodes[x][y] {
                    proof {
                        let idx = Index { x: x as u16, y: y as u16 };
                        assert(self.node_at(idx) == Some(Node::Hex(*h)));
                        assert(h.index == idx);
                        assert forall|k: int| 0 <= k < out@.len() implies out@[k] != *h by {
                            assert((out@[k]).index.x < x || (out@[k].index.x == x
                                && out@[k].index.y < y));
                        };
                    }
                    let ghost pre = out@;
                    out.push(*h);
                    proof {
                        assert forall|a: int, b: int|
                            0 <= a < b < out@.len() implies out@[a] != out@[b] by {
                            if b < pre.len() {
                            } else {
                                assert(out@[b] == *h && out@[a] == pre[a]);
                            }
                        };
                    }
                }
                y += 1;
            }
            x += 1;
        }
        proof {
            assert forall|h: Hex| self.hex_at(h.index) == Some(h) implies #[trigger] out@.contains(
                h,
            ) by {
                assert(h.index.x < self.nodes@.len());
            };
        }
        out
    }
}

} // verus!
