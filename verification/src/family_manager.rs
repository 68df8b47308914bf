//! The per-kind component registry: one [`Family`] — a sparse set of
//! components — for every component kind that has been registered,
//! held in a [`Container`] indexed by the kind's number.

use vstd::prelude::*;

use crate::entity_handler::Entity;
use crate::sparse_set::SparseSet;
use crate::sparse_set::SsView;

verus! {

/// The storage owned by one component kind.
pub struct Family<V> {
    /// The sparse set holding every component of this kind.
    pub components: SparseSet<Entity, V>,
}

impl<V> View for Family<V> {
    type V = SsView<Entity, V>;

    open spec fn view(&self) -> SsView<Entity, V> {
        self.components@
    }
}

impl<V> Family<V> {
    /// Creates a family with an empty component set.
    pub fn new() -> (r: Family<V>)
        ensures
            r@ == (SsView {
                keys: Seq::<Entity>::empty(),
                vals: Seq::<V>::empty(),
                sparse: Map::<u64, usize>::empty(),
                boundary: 0int,
            }),
            r@.inv(),
    {
        Family { components: SparseSet::new() }
    }

}

/// A registry mapping each component kind, a small number chosen by
/// the caller, to the family created for it.  Viewed as a map from
/// kind to the family's sparse-set state.
pub struct Container<V> {
    families: Vec<Option<Family<V>>>,
}

impl<V> View for Container<V> {
    type V = Map<usize, SsView<Entity, V>>;

    closed spec fn view(&self) -> Map<usize, SsView<Entity, V>> {
        Map::new(
            |k: usize| k < self.families@.len() && self.families@[k as int] is Some,
            |k: usize| self.families@[k as int]->Some_0@,
        )
    }
}

impl<V> Container<V> {
    /// Creates a registry with no families.
    pub fn new() -> (r: Container<V>)
        ensures
            r@ == Map::<usize, SsView<Entity, V>>::empty(),
    {
        let r = Container { families: Vec::new() };
        proof {
            assert(r@ =~= Map::<usize, SsView<Entity, V>>::empty());
        }
        r
    }

    /// Registers a family under a kind, growing the table as needed.
    pub fn add_family(&mut self, kind: usize, family: Family<V>)
        ensures
            final(self)@ == old(self)@.insert(kind, family@),
    {
        while self.families.len() <= kind
            invariant
                self@ == old(self)@,
            decreases kind as int + 1 - self.families@.len(),
        {
            self.families.push(None);
            proof {
                assert(self@ =~= old(self)@);
            }
        }
        self.families.set(kind, Some(family));
        proof {
            assert(self@ =~= old(self)@.insert(kind, family@));
        }
    }

    /// Looks a kind up, sharing the family when it is registered.
    pub fn get_family(&self, kind: usize) -> (r: Option<&Family<V>>)
        ensures
            match r {
                Some(f) => self@.contains_key(kind) && f@ == self@[kind],
                None => !self@.contains_key(kind),
            },
    {
        if kind < self.families.len() {
            match &self.families[kind] {
                Some(f) => Some(f),
                None => None,
            }
        } else {
            None
        }
    }

    /// Looks a kind up, lending its family exclusively when it is
    /// registered.  Only that family can change through the borrow.
    pub fn get_family_mut(&mut self, kind: usize) -> (r: Option<&mut Family<V>>)
        ensures
            !old(self)@.contains_key(kind) ==> r.is_none() && final(self)@ == old(self)@,
            old(self)@.contains_key(kind) ==> r.is_some() && (*r.unwrap())@ == old(self)@[kind]
                && final(self)@ == old(self)@.insert(kind, (*final(r.unwrap()))@),
    {
        if kind >= self.families.len() {
            return None;
        }
        match &mut self.families[kind] {
            Some(f) => Some(f),
            None => None,
        }
    }
}

} // verus!
