use vstd::prelude::*;

verus! {

/// The five tradable resource kinds of the game.
#[derive(Clone, Copy, Debug, PartialEq, Eq, Hash, Structural)]
pub enum Resource {
    Brick,
    Ore,
    Sheep,
    Wheat,
    Wood,
}

impl Resource {
    /// Every resource kind, in the fixed canonical order.
    pub fn all() -> (out: Vec<Resource>)
        ensures
            out@ =~= seq![
                Resource::Brick,
                Resource::Ore,
                Resource::Sheep,
                Resource::Wheat,
                Resource::Wood,
            ],
    {
        vec![
            Resource::Brick,
            Resource::Ore,
            Resource::Sheep,
            Resource::Wheat,
            Resource::Wood,
        ]
    }
}

/// A bundle of resources: one count per resource kind.  A cost, a windfall,
/// a hand, and the per-resource bank trade rates are all values of this type.
#[derive(Clone, Copy, Debug, PartialEq, Eq, Structural)]
pub struct ResourceCounts {
    pub brick: u32,
    pub ore: u32,
    pub sheep: u32,
    pub wheat: u32,
    pub wood: u32,
}

impl ResourceCounts {
    /// The count held for one resource kind.
    pub open spec fn cnt(self, r: Resource) -> u32 {
        match r {
            Resource::Brick => self.brick,
            Resource::Ore => self.ore,
            Resource::Sheep => self.sheep,
            Resource::Wheat => self.wheat,
            Resource::Wood => self.wood,
        }
    }

    /// Total number of cards in the bundle.
    pub open spec fn total(self) -> int {
        self.brick + self.ore + self.sheep + self.wheat + self.wood
    }

    /// Every count of `c` is covered by the matching count of `self`.
    pub open spec fn covers(self, c: Self) -> bool {
        &&& self.brick >= c.brick
        &&& self.ore >= c.ore
        &&& self.sheep >= c.sheep
        &&& self.wheat >= c.wheat
        &&& self.wood >= c.wood
    }

    /// Adding `o` to `self` stays within the count type, kind by kind.
    pub open spec fn add_fits(self, o: Self) -> bool {
        &&& self.brick + o.brick <= u32::MAX
        &&& self.ore + o.ore <= u32::MAX
        &&& self.sheep + o.sheep <= u32::MAX
        &&& self.wheat + o.wheat <= u32::MAX
        &&& self.wood + o.wood <= u32::MAX
    }

    /// Kind-by-kind sum (meaningful when `add_fits` holds).
    pub open spec fn plus(self, o: Self) -> Self {
        ResourceCounts {
            brick: (self.brick + o.brick) as u32,
            ore: (self.ore + o.ore) as u32,
            sheep: (self.sheep + o.sheep) as u32,
            wheat: (self.wheat + o.wheat) as u32,
            wood: (self.wood + o.wood) as u32,
        }
    }

    /// Kind-by-kind difference (meaningful when `self.covers(o)` holds).
    pub open spec fn minus(self, o: Self) -> Self {
        ResourceCounts {
            brick: (self.brick - o.brick) as u32,
            ore: (self.ore - o.ore) as u32,
            sheep: (self.sheep - o.sheep) as u32,
            wheat: (self.wheat - o.wheat) as u32,
            wood: (self.wood - o.wood) as u32,
        }
    }

    /// The empty bundle.
    pub fn new() -> (out: ResourceCounts)
        ensures
            forall|r: Resource| out.cnt(r) == 0,
            out.total() == 0,
    {
        ResourceCounts { brick: 0, ore: 0, sheep: 0, wheat: 0, wood: 0 }
    }

    /// A bundle holding the same count for every kind.
    pub fn uniform(n: u32) -> (out: ResourceCounts)
        ensures
            forall|r: Resource| out.cnt(r) == n,
    {
        ResourceCounts { brick: n, ore: n, sheep: n, wheat: n, wood: n }
    }

    pub fn get(&self, r: Resource) -> (n: u32)
        ensures
            n == self.cnt(r),
    {
        match r {
            Resource::Brick => self.brick,
            Resource::Ore => self.ore,
            Resource::Sheep => self.sheep,
            Resource::Wheat => self.wheat,
            Resource::Wood => self.wood,
        }
    }

    /// The same bundle with the count for `r` replaced by `n`.
    pub fn with(self, r: Resource, n: u32) -> (out: ResourceCounts)
        ensures
            out.cnt(r) == n,
            forall|q: Resource| q != r ==> out.cnt(q) == self.cnt(q),
    {
        match r {
            Resource::Brick => ResourceCounts { brick: n, ..self },
            Resource::Ore => ResourceCounts { ore: n, ..self },
            Resource::Sheep => ResourceCounts { sheep: n, ..self },
            Resource::Wheat => ResourceCounts { wheat: n, ..self },
            Resource::Wood => ResourceCounts { wood: n, ..self },
        }
    }

    /// The same bundle with `n` more of kind `r`.
    pub fn bump(self, r: Resource, n: u32) -> (out: ResourceCounts)
        requires
            self.cnt(r) + n <= u32::MAX,
        ensures
            out.cnt(r) == self.cnt(r) + n,
            forall|q: Resource| q != r ==> out.cnt(q) == self.cnt(q),
    {
        let c = self.get(r);
        self.with(r, c + n)
    }

    /// Spec view of the empty bundle.
    pub open spec fn zero() -> ResourceCounts {
        ResourceCounts { brick: 0, ore: 0, sheep: 0, wheat: 0, wood: 0 }
    }

    /// Spec update of a single count.
    pub open spec fn set_spec(self, r: Resource, n: u32) -> ResourceCounts {
        match r {
            Resource::Brick => ResourceCounts { brick: n, ..self },
            Resource::Ore => ResourceCounts { ore: n, ..self },
            Resource::Sheep => ResourceCounts { sheep: n, ..self },
            Resource::Wheat => ResourceCounts { wheat: n, ..self },
            Resource::Wood => ResourceCounts { wood: n, ..self },
        }
    }

    /// Number of cards in the bundle, as an executable value.
    pub fn count_total(&self) -> (n: u64)
        ensures
            n == self.total(),
    {
        self.brick as u64 + self.ore as u64 + self.sheep as u64 + self.wheat as u64
            + self.wood as u64
    }

    /// Whether every count of `c` is covered by `self`.
    pub fn can_cover(&self, c: &ResourceCounts) -> (b: bool)
        ensures
            b == self.covers(*c),
    {
        self.brick >= c.brick && self.ore >= c.ore && self.sheep >= c.sheep
            && self.wheat >= c.wheat && self.wood >= c.wood
    }

    /// Kind-by-kind sum.
    pub fn add_all(&self, o: &ResourceCounts) -> (out: ResourceCounts)
        requires
            self.add_fits(*o),
        ensures
            out == self.plus(*o),
    {
        ResourceCounts {
            brick: self.brick + o.brick,
            ore: self.ore + o.ore,
            sheep: self.sheep + o.sheep,
            wheat: self.wheat + o.wheat,
            wood: self.wood + o.wood,
        }
    }

    /// Kind-by-kind difference.
    pub fn sub_all(&self, o: &ResourceCounts) -> (out: ResourceCounts)
        requires
            self.covers(*o),
        ensures
            out == self.minus(*o),
    {
        ResourceCounts {
            brick: self.brick - o.brick,
            ore: self.ore - o.ore,
            sheep: self.sheep - o.sheep,
            wheat: self.wheat - o.wheat,
            wood: self.wood - o.wood,
        }
    }
}

/// Accruing a bundle and then spending the same bundle restores the
/// original hand, for every hand that can take the bundle without
/// overflowing a count.
pub proof fn lemma_accrue_spend_round_trip(hand: ResourceCounts, bundle: ResourceCounts)
    requires
        hand.add_fits(bundle),
    ensures
        hand.plus(bundle).minus(bundle) == hand,
{
    assert(hand.plus(bundle).minus(bundle) =~= hand);
}

/// Spending a coverable bundle and then accruing the same bundle restores
/// the original hand.
pub proof fn lemma_spend_accrue_round_trip(hand: ResourceCounts, bundle: ResourceCounts)
    requires
        hand.covers(bundle),
    ensures
        hand.minus(bundle).plus(bundle) == hand,
{
    assert(hand.minus(bundle).plus(bundle) =~= hand);
}

} // verus!
