//! The engine: the show-rule depth counter and the locator.

use vstd::prelude::*;

use crate::content::Location;

verus! {

/// How often show rules may be applied in each other's output.
pub const MAX_SHOW_RULE_DEPTH: usize = 64;

/// Counts how deeply show rules are nested.
#[derive(Clone, Copy, Debug, PartialEq, Eq, Structural)]
pub struct Route {
    pub depth: usize,
}

impl Route {
    /// A route at depth 0.
    pub fn new() -> (r: Route)
        ensures
            r.depth == 0,
    {
        Route { depth: 0 }
    }

    /// Goes one level down.
    pub fn increase(&mut self)
        requires
            old(self).depth < usize::MAX,
        ensures
            final(self).depth == old(self).depth + 1,
    {
        self.depth = self.depth + 1;
    }

    /// Goes one level up. At depth 0 nothing changes.
    pub fn decrease(&mut self)
        ensures
            final(self).depth == if old(self).depth > 0 {
                old(self).depth - 1
            } else {
                0
            },
    {
        if self.depth > 0 {
            self.depth = self.depth - 1;
        }
    }

    pub open spec fn within_spec(&self, limit: usize) -> bool {
        self.depth <= limit
    }

    /// Whether the depth is no more than the limit.
    #[verifier::when_used_as_spec(within_spec)]
    pub fn within(&self, limit: usize) -> (r: bool)
        ensures
            r == (self.depth <= limit),
    {
        self.depth <= limit
    }
}

/// How many of the hashes are this one.
pub open spec fn occurrences(seen: Seq<u128>, hash: u128) -> nat
    decreases seen.len(),
{
    if seen.len() == 0 {
        0
    } else {
        occurrences(seen.drop_last(), hash) + (if seen.last() == hash {
            1nat
        } else {
            0nat
        })
    }
}

/// The location of an element with this hash, after the elements with the
/// hashes in `seen` were located.
pub open spec fn location_after(seen: Seq<u128>, hash: u128) -> Location {
    Location { hash, disambiguator: occurrences(seen, hash) as usize }
}

/// Gives elements their locations. Two elements with the same hash get
/// different disambiguators.
#[derive(Debug)]
pub struct Locator {
    pub seen: Vec<u128>,
}

impl Locator {
    /// A locator that has located nothing.
    pub fn new() -> (r: Locator)
        ensures
            r.seen@ == Seq::<u128>::empty(),
    {
        Locator { seen: Vec::new() }
    }

    /// Locates an element with this hash.
    pub fn locate(&mut self, hash: u128) -> (r: Location)
        ensures
            r == location_after(old(self).seen@, hash),
            final(self).seen@ == old(self).seen@.push(hash),
    {
        let mut count: usize = 0;
        let mut i: usize = 0;
        while i < self.seen.len()
            invariant
                i <= self.seen.len(),
                count == occurrences(self.seen@.take(i as int), hash),
                count <= i,
            decreases self.seen.len() - i,
        {
            proof {
                assert(self.seen@.take(i + 1).drop_last() =~= self.seen@.take(i as int));
            }
            if self.seen[i] == hash {
                count += 1;
            }
            i += 1;
        }
        proof {
            assert(self.seen@.take(self.seen.len() as int) =~= self.seen@);
        }
        self.seen.push(hash);
        Location { hash, disambiguator: count }
    }
}

/// What realization works with besides the content: the route and the
/// locator.
#[derive(Debug)]
pub struct Engine {
    pub route: Route,
    pub locator: Locator,
}

/// The model of an [`Engine`].
pub ghost struct EngineV {
    pub depth: usize,
    pub seen: Seq<u128>,
}

impl View for Engine {
    type V = EngineV;

    open spec fn view(&self) -> EngineV {
        EngineV { depth: self.route.depth, seen: self.locator.seen@ }
    }
}

impl Engine {
    /// An engine at depth 0 that has located nothing.
    pub fn new() -> (r: Engine)
        ensures
            r@ == (EngineV { depth: 0, seen: Seq::empty() }),
    {
        Engine { route: Route::new(), locator: Locator::new() }
    }
}

} // verus!
