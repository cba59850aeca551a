use vstd::prelude::*;

verus! {

/// A 2D grid coordinate: the sole identity of any board node.
#[derive(Clone, Copy, Debug, PartialEq, Eq, Hash, Structural)]
pub struct Index {
    pub x: u16,
    pub y: u16,
}

impl Index {
    pub fn new(x: u16, y: u16) -> (out: Index)
        ensures
            out == (Index { x, y }),
    {
        Index { x, y }
    }
}

/// Whether `v` holds the coordinate `x`.
pub fn index_vec_contains(v: &Vec<Index>, x: Index) -> (found: bool)
    ensures
        found == v@.contains(x),
{
    let mut i: usize = 0;
    while i < v.len()
        invariant
            i <= v.len(),
            forall|k: int| 0 <= k < i ==> v@[k] != x,
        decreases v.len() - i,
    {
        if v[i] == x {
            return true;
        }
        i += 1;
    }
    false
}

/// Appends `x` to `v` unless it is already there; the set of held
/// coordinates afterwards is the old set plus `x`.
pub fn index_vec_insert(v: &mut Vec<Index>, x: Index)
    ensures
        final(v)@.contains(x),
        forall|q: Index| #[trigger] final(v)@.contains(q) <==> old(v)@.contains(q) || q == x,
        old(v)@.no_duplicates() ==> final(v)@.no_duplicates(),
        old(v)@.contains(x) ==> final(v)@ == old(v)@,
        !old(v)@.contains(x) ==> final(v)@ == old(v)@.push(x),
{
    if !index_vec_contains(v, x) {
        v.push(x);
        proof {
            let n = old(v)@.len() as int;
            assert(v@[n] == x);
            assert forall|q: Index| #[trigger] v@.contains(q) implies old(v)@.contains(q) || q
                == x by {
                let i = choose|i: int| 0 <= i < v@.len() && v@[i] == q;
                if i < n {
                    assert(old(v)@[i] == q);
                }
            };
            assert forall|q: Index| old(v)@.contains(q) || q == x implies #[trigger] v@.contains(
                q,
            ) by {
                if old(v)@.contains(q) {
                    let i = choose|i: int| 0 <= i < old(v)@.len() && old(v)@[i] == q;
                    assert(v@[i] == q);
                } else {
                    assert(v@[n] == q);
                }
            };
            if old(v)@.no_duplicates() {
                assert forall|i: int, j: int|
                    0 <= i < v@.len() && 0 <= j < v@.len() && i != j implies v@[i] != v@[j] by {
                    if i < n && j < n {
                        assert(old(v)@[i] != old(v)@[j]);
                    } else if i < n {
                        assert(old(v)@.contains(old(v)@[i]));
                    } else if j < n {
                        assert(old(v)@.contains(old(v)@[j]));
                    }
                };
            }
        }
    }
}

} // verus!
