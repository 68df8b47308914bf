//! The top-level facade: one entity handler and one component
//! manager behind a single owner.
//!
//! Shared and exclusive access are arbitrated by Rust's static
//! borrows rather than by run-time counters: methods that change
//! state take the manager exclusively, and the accessors lend the
//! component manager out under the same discipline.

use vstd::prelude::*;

use crate::component_manager::CmView;
use crate::component_manager::ComponentManager;
use crate::component_manager::RuleView;
use crate::entity_handler::EhView;
use crate::entity_handler::Entity;
use crate::entity_handler::EntityHandler;
use crate::entity_handler::INDEX_LIMIT;
use crate::sparse_set::SsView;

verus! {

/// The mathematical state of a [`Manager`]: the entity handler's
/// state beside the component manager's.
#[verifier::ext_equal]
pub struct MgrView<V> {
    pub ents: EhView,
    pub comps: CmView<V>,
}

impl<V> MgrView<V> {
    /// Well-formedness of both halves.
    pub open spec fn inv(self) -> bool {
        self.ents.inv() && self.comps.inv()
    }
}

/// Runs the storage engine: allocates and kills entities and routes
/// component operations to the component manager.
pub struct Manager<V> {
    ent_handler: EntityHandler,
    comp_manager: ComponentManager<V>,
}

impl<V> View for Manager<V> {
    type V = MgrView<V>;

    closed spec fn view(&self) -> MgrView<V> {
        MgrView { ents: self.ent_handler@, comps: self.comp_manager@ }
    }
}

impl<V> Manager<V> {
    /// Creates a manager with no entities and no components.
    pub fn new() -> (r: Manager<V>)
        ensures
            r@.inv(),
            r@.ents == (EhView { slots: Seq::<Entity>::empty(), head: 0int, killed: 0int }),
            r@.comps == (CmView {
                families: Map::<usize, SsView<Entity, V>>::empty(),
                rules: Map::<usize, RuleView>::empty(),
                cleans: Seq::<usize>::empty(),
            }),
    {
        Manager { ent_handler: EntityHandler::new(), comp_manager: ComponentManager::new() }
    }

    /// Registers a new entity and returns its identifier.
    pub fn add_entity(&mut self) -> (e: Entity)
        requires
            old(self)@.inv(),
            old(self)@.ents.slots.len() < INDEX_LIMIT as int,
        ensures
            final(self)@.inv(),
            (final(self)@.ents, e) == old(self)@.ents.alloc_tr(),
            final(self)@.comps == old(self)@.comps,
    {
        self.ent_handler.new_entity()
    }

    /// Kills an entity: recycles its identifier first, so that the
    /// handle already fails `entity_alive`, then removes its
    /// components from every registered kind.
    pub fn kill_entity(&mut self, entity: Entity)
        requires
            old(self)@.inv(),
            old(self)@.ents.killed < usize::MAX as int,
        ensures
            final(self)@.inv(),
            final(self)@.ents == old(self)@.ents.kill_tr(entity),
            final(self)@.comps == old(self)@.comps.clean_tr(entity),
    {
        self.ent_handler.kill_entity(entity);
        self.comp_manager.clean_components(entity);
    }

    /// The number of entity slots in use, live and dead together.
    /// New entities can be added while this stays below
    /// [`INDEX_LIMIT`].
    pub fn entity_count(&self) -> (r: usize)
        ensures
            r as int == self@.ents.slots.len(),
    {
        self.ent_handler.slot_count()
    }

    /// Whether the entity's identifier is currently alive.
    pub fn entity_alive(&self, entity: Entity) -> (r: bool)
        ensures
            r == self@.ents.alive(entity),
    {
        self.ent_handler.is_alive(entity)
    }

    /// Adds a component of the given kind to an entity and runs the
    /// kind's grouping rule before returning.
    pub fn add_component(&mut self, kind: usize, entity: &Entity, component: V)
        requires
            old(self)@.inv(),
            old(self)@.comps.families.contains_key(kind) ==> old(
                self,
            )@.comps.families[kind].keys.len() < usize::MAX as int,
        ensures
            final(self)@.inv(),
            final(self)@.comps == old(self)@.comps.add_tr(kind, *entity, component),
            final(self)@.ents == old(self)@.ents,
    {
        self.comp_manager.add_component(kind, entity, component);
    }

    /// Shares the component manager.
    pub fn get_comp_manager(&self) -> (r: &ComponentManager<V>)
        ensures
            r@ == self@.comps,
    {
        &self.comp_manager
    }

    /// Lends the component manager exclusively; the entity handler
    /// cannot change through the borrow.
    pub fn get_comp_manager_mut(&mut self) -> (r: &mut ComponentManager<V>)
        ensures
            (*r)@ == old(self)@.comps,
            final(self)@.comps == (*final(r))@,
            final(self)@.ents == old(self)@.ents,
    {
        &mut self.comp_manager
    }
}

} // verus!
