use vstd::prelude::*;

use crate::entity::{EcsError, Entity};
use crate::sparse_set::SparseSet;

verus! {

#[verifier::external_type_specification]
#[verifier::external_body]
pub struct ExTypeId(core::any::TypeId);

/// Relies on `core::any::TypeId::of`: the runtime key identifying a concrete
/// component type. Nothing is assumed of the returned value; that equal keys
/// mean equal types is a runtime fact the proofs never use.
#[verifier::external_body]
fn type_id_of<T: 'static>() -> core::any::TypeId {
    core::any::TypeId::of::<T>()
}

/// Relies on `TypeId`'s derived `PartialEq`: it compares the identifier
/// values themselves.
#[verifier::external_body]
fn type_id_eq(a: &core::any::TypeId, b: &core::any::TypeId) -> (r: bool)
    ensures
        r == (*a == *b),
{
    a == b
}

/// One component type's sparse set with its element type erased, so that a
/// single registry can own storages for arbitrarily many component types.
/// The payload lives behind `std::any`; `remove_index_fn` is the
/// monomorphized remover captured when the set was erased, so removal can be
/// dispatched without naming the element type.
#[verifier::external_body]
pub struct ErasedSet {
    set: Box<dyn core::any::Any>,
    remove_index_fn: fn(&mut ErasedSet, u32),
}

/// The slot indices currently holding a component in the erased set: the
/// `index_set` of the sparse set behind the erasure.
pub uninterp spec fn erased_indices(s: ErasedSet) -> Set<u32>;

/// Whether the sparse set behind the erasure satisfies its density
/// invariant. Erasure establishes it; every dispatched operation keeps it.
pub uninterp spec fn erased_wf(s: ErasedSet) -> bool;

/// The captured remover: downcasts the payload back to its concrete set and
/// calls the verified `SparseSet::remove_index` on it.
#[verifier::external_body]
fn remove_index_thunk<T: 'static>(s: &mut ErasedSet, idx: u32) {
    if let Some(set) = s.set.downcast_mut::<SparseSet<T>>() {
        set.remove_index(idx);
    }
}

/// Dispatches to `SparseSet::remove_index` on the erased payload. Relies on
/// `Any::downcast_mut` in the captured remover: it hands back exactly the
/// stored set, whose type the remover matches by construction. The effect on
/// the contents is then the verified contract of `SparseSet::remove_index`.
#[verifier::external_body]
fn erased_remove_index(s: &mut ErasedSet, idx: u32)
    requires
        erased_wf(*old(s)),
    ensures
        erased_wf(*final(s)),
        erased_indices(*final(s)) == erased_indices(*old(s)).remove(idx),
{
    let f = s.remove_index_fn;
    f(s, idx);
}

/// Boxes a well-formed sparse set behind `std::any`, capturing its remover.
/// Relies on `Box::new` storing the value unchanged: the erased contents are
/// the set's contents.
#[verifier::external_body]
fn erase_set<T: 'static>(s: SparseSet<T>) -> (r: ErasedSet)
    requires
        s.wf(),
    ensures
        erased_wf(r),
        erased_indices(r) == s.index_set(),
{
    ErasedSet { set: Box::new(s), remove_index_fn: remove_index_thunk::<T> }
}

/// Recovers shared typed access. Relies on `Any::downcast_ref`: it returns
/// `Some` only when the erased payload is a `SparseSet<T>`, and then it is
/// that very value, so its invariant and contents are the erased ones.
#[verifier::external_body]
fn erased_set_ref<T: 'static>(s: &ErasedSet) -> (r: Option<&SparseSet<T>>)
    ensures
        r matches Some(set) ==> set.wf() == erased_wf(*s) && set.index_set() == erased_indices(
            *s,
        ),
{
    s.set.downcast_ref::<SparseSet<T>>()
}

/// Recovers exclusive typed access. Relies on `Any::downcast_mut` as
/// `erased_set_ref` does on `downcast_ref`; on a type mismatch nothing is
/// touched. Whatever the caller leaves in the typed set is what the erased
/// set then holds.
#[verifier::external_body]
fn erased_set_mut<T: 'static>(s: &mut ErasedSet) -> (r: Option<&mut SparseSet<T>>)
    ensures
        r is None ==> *final(s) == *old(s),
        r matches Some(set) ==> {
            &&& set.wf() == erased_wf(*old(s))
            &&& set.index_set() == erased_indices(*old(s))
            &&& erased_wf(*final(s)) == final(set).wf()
            &&& erased_indices(*final(s)) == final(set).index_set()
        },
{
    s.set.downcast_mut::<SparseSet<T>>()
}

/// One registered component type: its runtime key and its erased storage.
struct Entry {
    key: core::any::TypeId,
    set: ErasedSet,
}

/// The type-erased registry: one `SparseSet<T>` per distinct component type
/// ever inserted, created lazily on first insert and never dropped, behind a
/// `TypeId` key. Two structurally identical component types never collide:
/// their keys differ.
pub struct ComponentStorage {
    entries: Vec<Entry>,
}

impl ComponentStorage {
    /// Law (cross-type independence): an insert records its slot index in at
    /// most one registered entry; any two positions whose stored values both
    /// changed are one and the same, so every other component type's storage
    /// — key and full contents — is exactly the value it was.
    pub proof fn lemma_insert_cross_type_independence(
        pre: ComponentStorage,
        post: ComponentStorage,
        idx: u32,
        j1: int,
        j2: int,
    )
        requires
            storage_inserted(pre, post, idx),
            0 <= j1 < pre.sets().len(),
            0 <= j2 < pre.sets().len(),
            post.sets()[j1] != pre.sets()[j1],
            post.sets()[j2] != pre.sets()[j2],
        ensures
            j1 == j2,
    {
    }

    /// Registries with pointwise equal keys and well-formed storages inherit
    /// well-formedness.
    proof fn lemma_wf_pointwise(a: ComponentStorage, b: ComponentStorage)
        requires
            a.wf(),
            b.entries@.len() == a.entries@.len(),
            forall|j: int|
                0 <= j < a.entries@.len() ==> (#[trigger] b.entries@[j]).key == a.entries@[j].key,
            forall|j: int|
                0 <= j < b.entries@.len() ==> erased_wf((#[trigger] b.entries@[j]).set),
        ensures
            b.wf(),
    {
        assert forall|i: int, j: int| 0 <= i < j < b.entries@.len() implies (
        #[trigger] b.entries@[i]).key != (#[trigger] b.entries@[j]).key by {
            assert(a.entries@[i].key != a.entries@[j].key);
        }
    }

    /// The registered type keys, in registration order.
    pub closed spec fn keys(self) -> Seq<core::any::TypeId> {
        self.entries@.map_values(|e: Entry| e.key)
    }

    /// The erased storages, in the same order.
    pub closed spec fn sets(self) -> Seq<ErasedSet> {
        self.entries@.map_values(|e: Entry| e.set)
    }

    /// Every registered key is unique and every erased storage is
    /// well-formed.
    pub closed spec fn wf(self) -> bool {
        &&& forall|i: int, j: int|
            0 <= i < j < self.entries@.len() ==> (#[trigger] self.entries@[i]).key != (
            #[trigger] self.entries@[j]).key
        &&& forall|i: int|
            0 <= i < self.entries@.len() ==> erased_wf((#[trigger] self.entries@[i]).set)
    }

    pub fn new() -> (r: ComponentStorage)
        ensures
            r.wf(),
            r.keys() == Seq::<core::any::TypeId>::empty(),
            r.sets() == Seq::<ErasedSet>::empty(),
    {
        let r = ComponentStorage { entries: Vec::new() };
        proof {
            assert(r.keys() =~= Seq::<core::any::TypeId>::empty());
            assert(r.sets() =~= Seq::<ErasedSet>::empty());
        }
        r
    }

    /// The position registered for a type key, if any.
    fn find_entry(&self, key: &core::any::TypeId) -> (r: Option<usize>)
        ensures
            r matches Some(i) ==> i < self.keys().len() && self.keys()[i as int] == *key,
            r is None ==> !self.keys().contains(*key),
    {
        let mut i: usize = 0;
        while i < self.entries.len()
            invariant
                i <= self.entries.len(),
                forall|j: int| 0 <= j < i ==> self.keys()[j] != *key,
            decreases self.entries.len() - i,
        {
            if type_id_eq(&self.entries[i].key, key) {
                return Some(i);
            }
            i += 1;
        }
        proof {
            assert(forall|j: int| 0 <= j < self.keys().len() ==> self.keys()[j] != *key);
        }
        None
    }

    /// Gives `entity` a component of type `T`, creating the type's storage
    /// on its first ever insert. Fails, changing no contents, exactly when
    /// the slot index is beyond the sparse-table bound.
    pub fn insert<T: 'static>(&mut self, entity: Entity, value: T) -> (r: Result<(), EcsError>)
        requires
            old(self).wf(),
        ensures
            final(self).wf(),
            r is Err <==> entity.spec_idx() as int >= crate::entity::MAX_N_ENTITIES as int,
            r is Err ==> r == Err::<(), EcsError>(EcsError::IndexLimitExceeded) && same_contents(
                *old(self),
                *final(self),
            ),
            r is Ok ==> storage_inserted(*old(self), *final(self), entity.spec_idx()),
    {
        let key = type_id_of::<T>();
        match self.find_entry(&key) {
            Some(i) => {
                proof {
                    assert(erased_wf(old(self).sets()[i as int]));
                }
                let e = &mut self.entries[i];
                match erased_set_mut::<T>(&mut e.set) {
                    Some(set) => {
                        let res = set.insert(entity, value);
                        proof {
                            assert(erased_wf(self.entries@[i as int].set));
                            assert(forall|j: int|
                                0 <= j < self.entries@.len() && j != i as int
                                    ==> (#[trigger] self.entries@[j]) == old(self).entries@[j]);
                            Self::lemma_wf_pointwise(*old(self), *self);
                            assert(forall|j: int|
                                0 <= j < old(self).keys().len() ==> self.keys()[j] == old(
                                    self,
                                ).keys()[j]);
                            assert(forall|j: int|
                                0 <= j < old(self).sets().len() && j != i as int ==> #[trigger] self.sets()[j]
                                    == old(self).sets()[j]);
                            if res is Ok {
                                assert(erased_indices(self.sets()[i as int]) == erased_indices(
                                    old(self).sets()[i as int],
                                ).insert(entity.spec_idx()));
                            }
                        }
                        res
                    },
                    None => {
                        // the erased entry does not hold a set of this
                        // component type; with entries keyed by TypeId that
                        // cannot happen at runtime, and the entry is rebuilt
                        let mut fresh = SparseSet::<T>::new();
                        let res = fresh.insert(entity, value);
                        if res.is_ok() {
                            let erased = erase_set(fresh);
                            let e2 = &mut self.entries[i];
                            e2.set = erased;
                        }
                        proof {
                            assert(erased_wf(self.entries@[i as int].set));
                            assert(forall|j: int|
                                0 <= j < self.entries@.len() && j != i as int
                                    ==> (#[trigger] self.entries@[j]) == old(self).entries@[j]);
                            Self::lemma_wf_pointwise(*old(self), *self);
                            assert(forall|j: int|
                                0 <= j < old(self).keys().len() ==> self.keys()[j] == old(
                                    self,
                                ).keys()[j]);
                            assert(forall|j: int|
                                0 <= j < old(self).sets().len() && j != i as int ==> #[trigger] self.sets()[j]
                                    == old(self).sets()[j]);
                            if res is Ok {
                                assert(erased_indices(self.sets()[i as int]) =~= Set::<
                                    u32,
                                >::empty().insert(entity.spec_idx()));
                            }
                        }
                        res
                    },
                }
            },
            None => {
                let mut fresh = SparseSet::<T>::new();
                match fresh.insert(entity, value) {
                    Ok(u) => {
                        let erased = erase_set(fresh);
                        self.entries.push(Entry { key, set: erased });
                        proof {
                            assert(self.keys().drop_last() =~= old(self).keys());
                            assert(forall|j: int|
                                0 <= j < old(self).sets().len() ==> #[trigger] self.sets()[j]
                                    == old(self).sets()[j]);
                            assert(erased_indices(self.sets().last()) =~= Set::<
                                u32,
                            >::empty().insert(entity.spec_idx()));
                            assert(!old(self).keys().contains(self.keys().last()));
                            assert forall|a: int, b: int|
                                0 <= a < b < self.entries@.len() implies (
                            #[trigger] self.entries@[a]).key != (#[trigger] self.entries@[b]).key by {
                                if b < old(self).entries@.len() {
                                    assert(old(self).entries@[a].key != old(self).entries@[b].key);
                                } else {
                                    assert(self.entries@[a].key == old(self).keys()[a]);
                                    assert(old(self).keys().contains(old(self).keys()[a]));
                                }
                            }
                            assert(forall|a: int|
                                0 <= a < self.entries@.len() ==> erased_wf(
                                    (#[trigger] self.entries@[a]).set,
                                ));
                        }
                        Ok(u)
                    },
                    Err(e) => Err(e),
                }
            },
        }
    }

    /// Asks every registered type's storage to drop the entity's component,
    /// keyed by slot index; a cheap no-op per type where absent. This is how
    /// a despawn cascades cleanup across all component kinds.
    pub fn remove(&mut self, entity: Entity)
        requires
            old(self).wf(),
        ensures
            final(self).wf(),
            same_keys(*old(self), *final(self)),
            forall|j: int|
                0 <= j < old(self).sets().len() ==> erased_indices(
                    #[trigger] final(self).sets()[j],
                ) == erased_indices(old(self).sets()[j]).remove(entity.spec_idx()),
    {
        let idx = entity.index();
        let mut i: usize = 0;
        while i < self.entries.len()
            invariant
                old(self).wf(),
                i <= self.entries.len(),
                self.sets().len() == old(self).sets().len(),
                self.keys().len() == old(self).keys().len(),
                forall|j: int| 0 <= j < old(self).keys().len() ==> self.keys()[j] == old(self).keys()[j],
                forall|j: int|
                    0 <= j < i ==> erased_wf(#[trigger] self.sets()[j]) && erased_indices(
                        self.sets()[j],
                    ) == erased_indices(old(self).sets()[j]).remove(idx),
                forall|j: int|
                    i <= j < self.sets().len() ==> #[trigger] self.sets()[j] == old(self).sets()[j],
            decreases self.entries.len() - i,
        {
            proof {
                assert(self.sets()[i as int] == old(self).sets()[i as int]);
                assert(erased_wf(old(self).sets()[i as int]));
            }
            let ghost prev = *self;
            let e = &mut self.entries[i];
            erased_remove_index(&mut e.set, idx);
            proof {
                assert(self.entries@[i as int].key == prev.entries@[i as int].key);
                assert(erased_indices(self.entries@[i as int].set) == erased_indices(
                    prev.entries@[i as int].set,
                ).remove(idx));
                assert(forall|j: int|
                    0 <= j < self.entries@.len() && j != i as int ==> self.entries@[j]
                        == prev.entries@[j]);
                assert(forall|j: int|
                    0 <= j < self.sets().len() && j != i as int ==> #[trigger] self.sets()[j]
                        == prev.sets()[j]);
                assert(forall|j: int|
                    0 <= j < self.keys().len() ==> #[trigger] self.keys()[j] == prev.keys()[j]);
            }
            i += 1;
        }
        proof {
            assert forall|a: int| 0 <= a < self.entries@.len() implies erased_wf(
                (#[trigger] self.entries@[a]).set,
            ) by {
                assert(erased_wf(self.sets()[a]));
            }
            assert forall|a: int| 0 <= a < self.entries@.len() implies (
            #[trigger] self.entries@[a]).key == old(self).entries@[a].key by {
                assert(self.keys()[a] == old(self).keys()[a]);
            }
            Self::lemma_wf_pointwise(*old(self), *self);
        }
    }

    /// Looks up the component of type `T` for the entity's slot index.
    /// Absence — a type never registered, or an entity without the
    /// component — is an empty result, never a failure.
    pub fn get<T: 'static>(&self, entity: Entity) -> (r: Option<&T>)
        requires
            self.wf(),
        ensures
            r is Some ==> exists|i: int|
                0 <= i < self.sets().len() && erased_indices(#[trigger] self.sets()[i]).contains(
                    entity.spec_idx(),
                ),
    {
        let key = type_id_of::<T>();
        match self.find_entry(&key) {
            Some(i) => {
                proof {
                    assert(erased_wf(self.sets()[i as int]));
                }
                match erased_set_ref::<T>(&self.entries[i].set) {
                    Some(set) => set.get(entity),
                    None => None,
                }
            },
            None => None,
        }
    }

    /// Mutable component lookup; which entities hold which component types
    /// stays exactly as it was, only the looked-up value can change.
    pub fn get_mut<T: 'static>(&mut self, entity: Entity) -> (r: Option<&mut T>)
        requires
            old(self).wf(),
        ensures
            final(self).wf(),
            same_contents(*old(self), *final(self)),
            r is Some ==> exists|i: int|
                0 <= i < old(self).sets().len() && erased_indices(
                    #[trigger] old(self).sets()[i],
                ).contains(entity.spec_idx()),
    {
        let key = type_id_of::<T>();
        match self.find_entry(&key) {
            Some(i) => {
                proof {
                    broadcast use crate::sparse_set::lemma_index_set_structural;

                    assert(erased_wf(old(self).sets()[i as int]));
                    assert(erased_indices(old(self).sets()[i as int]) == erased_indices(
                        old(self).sets()[i as int],
                    ));
                }
                let e = &mut self.entries[i];
                match erased_set_mut::<T>(&mut e.set) {
                    Some(set) => set.get_mut(entity),
                    None => None,
                }
            },
            None => None,
        }
    }

    /// Shared access to the whole sparse set registered for `T`, for
    /// iteration; empty when the type was never inserted anywhere.
    pub fn iter<T: 'static>(&self) -> (r: Option<&SparseSet<T>>)
        requires
            self.wf(),
        ensures
            r matches Some(s) ==> s.wf() && exists|i: int|
                0 <= i < self.sets().len() && s.index_set() == erased_indices(
                    #[trigger] self.sets()[i],
                ),
    {
        let key = type_id_of::<T>();
        match self.find_entry(&key) {
            Some(i) => {
                proof {
                    assert(erased_wf(self.sets()[i as int]));
                }
                erased_set_ref::<T>(&self.entries[i].set)
            },
            None => None,
        }
    }

    /// Exclusive access to the whole sparse set registered for `T`. The
    /// registry afterwards holds whatever the caller leaves in the set; a
    /// caller that keeps the set well-formed keeps the registry well-formed.
    pub fn iter_mut<T: 'static>(&mut self) -> (r: Option<&mut SparseSet<T>>)
        requires
            old(self).wf(),
        ensures
            r is None ==> final(self).wf() && same_contents(*old(self), *final(self)),
            r matches Some(s) ==> {
                &&& s.wf()
                &&& same_keys(*old(self), *final(self))
                &&& (final(s).wf() ==> final(self).wf())
                &&& exists|i: int|
                    0 <= i < old(self).sets().len() && {
                        &&& s.index_set() == erased_indices(#[trigger] old(self).sets()[i])
                        &&& (forall|j: int|
                            0 <= j < old(self).sets().len() && j != i
                                ==> #[trigger] final(self).sets()[j] == old(self).sets()[j])
                        &&& erased_indices(final(self).sets()[i]) == final(s).index_set()
                    }
            },
    {
        let key = type_id_of::<T>();
        match self.find_entry(&key) {
            Some(i) => {
                proof {
                    assert(erased_wf(old(self).sets()[i as int]));
                    assert(erased_indices(old(self).sets()[i as int]) == erased_indices(
                        old(self).sets()[i as int],
                    ));
                }
                let e = &mut self.entries[i];
                erased_set_mut::<T>(&mut e.set)
            },
            None => None,
        }
    }
}

/// The registries have the same component types registered, in the same
/// order.
pub open spec fn same_keys(a: ComponentStorage, b: ComponentStorage) -> bool {
    &&& b.keys().len() == a.keys().len()
    &&& b.sets().len() == a.sets().len()
    &&& forall|j: int| 0 <= j < a.keys().len() ==> b.keys()[j] == a.keys()[j]
}

/// The registries have the same keys and, type by type, the same entities
/// holding a component.
pub open spec fn same_contents(a: ComponentStorage, b: ComponentStorage) -> bool {
    &&& same_keys(a, b)
    &&& forall|j: int|
        0 <= j < a.sets().len() ==> erased_indices(#[trigger] b.sets()[j]) == erased_indices(
            a.sets()[j],
        )
}

/// How a successful insert for slot index `idx` changes the registry: either
/// exactly one existing entry records the index (all others untouched), or a
/// single fresh storage holding exactly that index is appended under a key
/// not registered before. Inserting one component type never alters another
/// type's storage.
pub open spec fn storage_inserted(pre: ComponentStorage, post: ComponentStorage, idx: u32) -> bool {
    ||| (exists|i: int|
        0 <= i < pre.keys().len() && {
            &&& same_keys(pre, post)
            &&& (forall|j: int|
                0 <= j < pre.sets().len() && j != i ==> #[trigger] post.sets()[j]
                    == pre.sets()[j])
            &&& (erased_indices(#[trigger] post.sets()[i]) == erased_indices(
                pre.sets()[i],
            ).insert(idx) || erased_indices(post.sets()[i]) == Set::<u32>::empty().insert(idx))
        })
    ||| ({
        &&& post.keys().len() == pre.keys().len() + 1
        &&& post.keys().drop_last() == pre.keys()
        &&& !pre.keys().contains(post.keys().last())
        &&& post.sets().len() == pre.sets().len() + 1
        &&& (forall|j: int| 0 <= j < pre.sets().len() ==> #[trigger] post.sets()[j] == pre.sets()[j])
        &&& erased_indices(post.sets().last()) == Set::<u32>::empty().insert(idx)
    })
}

} // verus!
