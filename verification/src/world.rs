use vstd::prelude::*;

use crate::entity::{EcsError, Entity};
use crate::entity_manager::{allocate_step, deallocate_step, EntityManager};
use crate::sparse_set::SparseSet;
use crate::storage::{
    erased_indices, same_contents, same_keys, storage_inserted, ComponentStorage,
};

verus! {

/// The façade composing the entity allocator with the component registry:
/// spawn and despawn handles, attach components, query a component type's
/// whole storage.
pub struct World {
    entity_manager: EntityManager,
    component_storage: ComponentStorage,
}

impl World {
    /// The handle allocator's state.
    pub closed spec fn manager(self) -> EntityManager {
        self.entity_manager
    }

    /// The component registry's state.
    pub closed spec fn storage(self) -> ComponentStorage {
        self.component_storage
    }

    pub open spec fn wf(self) -> bool {
        self.manager().wf() && self.storage().wf()
    }

    /// A handle is alive exactly when its generation matches its slot's
    /// current counter.
    pub open spec fn spec_alive(self, e: Entity) -> bool {
        self.manager().spec_alive(e)
    }

    pub fn new() -> (r: World)
        ensures
            r.wf(),
            r.manager().gens() == Seq::<u32>::empty(),
            r.manager().free() == Seq::<u32>::empty(),
            r.manager().max() == crate::entity::MAX_N_ENTITIES,
            r.storage().keys().len() == 0,
    {
        World { entity_manager: EntityManager::new(), component_storage: ComponentStorage::new() }
    }

    /// Allocates a fresh or recycled entity handle; the component registry
    /// is untouched. Fails exactly when the configured slot capacity is
    /// exhausted.
    pub fn spawn(&mut self) -> (r: Result<Entity, EcsError>)
        requires
            old(self).wf(),
        ensures
            final(self).wf(),
            final(self).storage() == old(self).storage(),
            r is Err <==> old(self).manager().at_capacity(),
            r is Err ==> r == Err::<Entity, EcsError>(EcsError::SlotCapacityExceeded)
                && *final(self) == *old(self),
            r matches Ok(e) ==> allocate_step(old(self).manager(), final(self).manager(), e)
                && final(self).spec_alive(e),
    {
        self.entity_manager.allocate()
    }

    /// Returns the handle's slot for reuse and scrubs the slot's components
    /// from every registered type's storage. Both steps are keyed by index
    /// alone: a stale-generation despawn still scrubs the slot's current
    /// components. A handle that was alive is stale afterwards; an index
    /// never allocated leaves the allocator untouched, though the registry
    /// is still scrubbed.
    pub fn despawn(&mut self, entity: Entity)
        requires
            old(self).wf(),
        ensures
            final(self).wf(),
            entity.spec_idx() < old(self).manager().gens().len() ==> deallocate_step(
                old(self).manager(),
                final(self).manager(),
                entity,
            ),
            entity.spec_idx() >= old(self).manager().gens().len() ==> final(self).manager()
                == old(self).manager(),
            old(self).spec_alive(entity) ==> !final(self).spec_alive(entity),
            same_keys(old(self).storage(), final(self).storage()),
            forall|j: int|
                0 <= j < old(self).storage().sets().len() ==> erased_indices(
                    #[trigger] final(self).storage().sets()[j],
                ) == erased_indices(old(self).storage().sets()[j]).remove(entity.spec_idx()),
            forall|j: int|
                0 <= j < final(self).storage().sets().len() ==> !erased_indices(
                    #[trigger] final(self).storage().sets()[j],
                ).contains(entity.spec_idx()),
    {
        let _ = self.entity_manager.deallocate(entity);
        self.component_storage.remove(entity);
    }

    /// Attaches a component to the entity's slot, replacing any existing
    /// component of that type on the slot. Aliveness is not checked: callers
    /// inserting on a despawned handle are responsible for the consequences.
    /// Fails exactly when the slot index is beyond the sparse-table bound.
    pub fn insert<T: 'static>(&mut self, entity: Entity, value: T) -> (r: Result<(), EcsError>)
        requires
            old(self).wf(),
        ensures
            final(self).wf(),
            final(self).manager() == old(self).manager(),
            r is Err <==> entity.spec_idx() as int >= crate::entity::MAX_N_ENTITIES as int,
            r is Err ==> r == Err::<(), EcsError>(EcsError::IndexLimitExceeded) && same_contents(
                old(self).storage(),
                final(self).storage(),
            ),
            r is Ok ==> storage_inserted(
                old(self).storage(),
                final(self).storage(),
                entity.spec_idx(),
            ),
    {
        self.component_storage.insert(entity, value)
    }

    /// Whether the handle is alive: stale handles — despawned, or outlived
    /// by a reuse of their slot — report `false`.
    pub fn is_alive(&self, entity: Entity) -> (r: bool)
        ensures
            r == self.spec_alive(entity),
    {
        self.entity_manager.is_alive(entity)
    }

    /// Shared access to the whole storage of component type `T`, for
    /// iteration; empty when the type has never been inserted anywhere.
    pub fn query<T: 'static>(&self) -> (r: Option<&SparseSet<T>>)
        requires
            self.wf(),
        ensures
            r matches Some(s) ==> s.wf() && exists|i: int|
                0 <= i < self.storage().sets().len() && s.index_set() == erased_indices(
                    #[trigger] self.storage().sets()[i],
                ),
    {
        self.component_storage.iter::<T>()
    }

    /// Exclusive access to the whole storage of component type `T`. The
    /// world afterwards holds whatever the caller leaves in the set; the
    /// allocator is untouched.
    pub fn query_mut<T: 'static>(&mut self) -> (r: Option<&mut SparseSet<T>>)
        requires
            old(self).wf(),
        ensures
            final(self).manager() == old(self).manager(),
            r is None ==> final(self).wf() && same_contents(
                old(self).storage(),
                final(self).storage(),
            ),
            r matches Some(s) ==> {
                &&& s.wf()
                &&& same_keys(old(self).storage(), final(self).storage())
                &&& (final(s).wf() ==> final(self).wf())
                &&& exists|i: int|
                    0 <= i < old(self).storage().sets().len() && {
                        &&& s.index_set() == erased_indices(
                            #[trigger] old(self).storage().sets()[i],
                        )
                        &&& (forall|j: int|
                            0 <= j < old(self).storage().sets().len() && j != i
                                ==> #[trigger] final(self).storage().sets()[j]
                                == old(self).storage().sets()[j])
                        &&& erased_indices(final(self).storage().sets()[i])
                            == final(s).index_set()
                    }
            },
    {
        self.component_storage.iter_mut::<T>()
    }
}

/// Law (despawn cascade): `despawn` ensures that no registered type's
/// storage holds the slot index any longer; this rules out the certificate
/// that `ComponentStorage::get` and `World::query` contracts demand for a
/// present component, so every subsequent lookup for the handle is absent.
pub proof fn lemma_despawned_index_absent(w: World, e: Entity)
    requires
        forall|j: int|
            0 <= j < w.storage().sets().len() ==> !erased_indices(
                #[trigger] w.storage().sets()[j],
            ).contains(e.spec_idx()),
    ensures
        !(exists|i: int|
            0 <= i < w.storage().sets().len() && erased_indices(
                #[trigger] w.storage().sets()[i],
            ).contains(e.spec_idx())),
{
}

} // verus!
