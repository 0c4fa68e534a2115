use vstd::prelude::*;

use crate::entity::{EcsError, Entity, MAX_N_ENTITIES};

verus! {

/// An earlier sparse-set design with a fully preallocated lookup table: one
/// slot per possible entity index, filled at construction. `entities` holds
/// the slot indices currently carrying a component, densely packed;
/// `components[i]` is the value for `entities[i]`. Superseded by
/// `SparseSet`, which grows its table on demand and keys the registry, but
/// kept as a standalone store.
pub struct EntityComponentSet<T> {
    sparse_map: Vec<Option<usize>>,
    entities: Vec<u32>,
    components: Vec<T>,
}

impl<T> EntityComponentSet<T> {
    /// The slot indices currently carrying a component, in dense order.
    pub closed spec fn dense(self) -> Seq<u32> {
        self.entities@
    }

    /// The component values, in the same dense order.
    pub closed spec fn values(self) -> Seq<T> {
        self.components@
    }

    /// The preallocated lookup table.
    pub closed spec fn sparse_seq(self) -> Seq<Option<usize>> {
        self.sparse_map@
    }

    /// The dense position recorded for a slot index, if any.
    pub open spec fn pos_of(self, idx: u32) -> Option<usize> {
        if idx < self.sparse_seq().len() {
            self.sparse_seq()[idx as int]
        } else {
            None
        }
    }

    /// Whether the entity at this slot index carries a component.
    pub open spec fn contains_idx(self, idx: u32) -> bool {
        self.pos_of(idx) is Some
    }

    /// The value stored for a slot index.
    pub open spec fn value_of(self, idx: u32) -> T
        recommends
            self.contains_idx(idx),
    {
        self.values()[self.pos_of(idx)->0 as int]
    }

    /// The density invariant: the lookup table covers every admissible slot
    /// index, dense indices and values stay in lockstep, every dense entry's
    /// table slot points back at its position, and every occupied table slot
    /// points at a dense entry for that index.
    pub open spec fn wf(self) -> bool {
        &&& self.sparse_seq().len() == MAX_N_ENTITIES
        &&& self.dense().len() == self.values().len()
        &&& forall|i: int|
            0 <= i < self.dense().len() ==> (self.pos_of(#[trigger] self.dense()[i]) matches Some(
            q,
            ) && q as int == i)
        &&& forall|idx: u32|
            (#[trigger] self.pos_of(idx)) is Some ==> self.pos_of(idx)->0 < self.dense().len()
                && self.dense()[self.pos_of(idx)->0 as int] == idx
    }

    pub fn new() -> (r: EntityComponentSet<T>)
        ensures
            r.wf(),
            r.dense() == Seq::<u32>::empty(),
            r.values() == Seq::<T>::empty(),
            forall|idx: u32| !r.contains_idx(idx),
    {
        let mut sparse_map: Vec<Option<usize>> = Vec::new();
        while sparse_map.len() < MAX_N_ENTITIES
            invariant
                sparse_map@.len() <= MAX_N_ENTITIES,
                forall|j: int| 0 <= j < sparse_map@.len() ==> (#[trigger] sparse_map@[j]) is None,
            decreases MAX_N_ENTITIES - sparse_map.len(),
        {
            sparse_map.push(None);
        }
        EntityComponentSet { sparse_map, entities: Vec::new(), components: Vec::new() }
    }

    /// The dense position of the entity's component, keyed by slot index.
    fn contains(&self, entity: Entity) -> (r: Option<usize>)
        ensures
            r == self.pos_of(entity.spec_idx()),
    {
        let index = entity.index() as usize;
        if index < self.sparse_map.len() {
            self.sparse_map[index]
        } else {
            None
        }
    }

    /// Gives the entity's slot this component, replacing in place when the
    /// slot already carries one. Fails, before any mutation, only on a slot
    /// index beyond the table.
    pub fn insert(&mut self, entity: Entity, component: T) -> (r: Result<(), EcsError>)
        requires
            old(self).wf(),
        ensures
            final(self).wf(),
            r is Err <==> entity.spec_idx() as int >= MAX_N_ENTITIES as int,
            r is Err ==> r == Err::<(), EcsError>(EcsError::IndexLimitExceeded) && *final(self)
                == *old(self),
            r is Ok ==> {
                let idx = entity.spec_idx();
                &&& if old(self).contains_idx(idx) {
                    let p = old(self).pos_of(idx)->0 as int;
                    &&& final(self).dense() == old(self).dense()
                    &&& final(self).values() == old(self).values().update(p, component)
                } else {
                    &&& final(self).dense() == old(self).dense().push(idx)
                    &&& final(self).values() == old(self).values().push(component)
                }
                &&& forall|j: u32| j != idx ==> final(self).pos_of(j) == old(self).pos_of(j)
                &&& final(self).contains_idx(idx)
                &&& final(self).value_of(idx) == component
            },
    {
        let index = entity.index() as usize;
        if index >= MAX_N_ENTITIES {
            return Err(EcsError::IndexLimitExceeded);
        }
        match self.contains(entity) {
            Some(dense_index) => {
                proof {
                    assert(old(self).pos_of(entity.spec_idx()) == Some(dense_index));
                    assert(old(self).dense().len() == old(self).values().len());
                }
                self.components[dense_index] = component;
                proof {
                    assert forall|i: int| 0 <= i < self.dense().len() implies (self.pos_of(
                        #[trigger] self.dense()[i],
                    ) matches Some(q) && q as int == i) by {
                        assert(old(self).pos_of(old(self).dense()[i]) matches Some(q) && q as int
                            == i);
                    }
                    assert forall|jx: u32| (#[trigger] self.pos_of(jx)) is Some implies self.pos_of(
                        jx,
                    )->0 < self.dense().len() && self.dense()[self.pos_of(jx)->0 as int]
                        == jx by {
                        assert(old(self).pos_of(jx) is Some);
                    }
                }
                Ok(())
            },
            None => {
                let dense_index = self.entities.len();
                self.entities.push(entity.index());
                self.components.push(component);
                self.sparse_map[index] = Some(dense_index);
                proof {
                    let idx = entity.spec_idx();
                    assert forall|j: u32| j != idx implies #[trigger] self.pos_of(j) == old(
                        self,
                    ).pos_of(j) by {}
                    assert forall|i: int| 0 <= i < self.dense().len() implies (self.pos_of(
                        #[trigger] self.dense()[i],
                    ) matches Some(q) && q as int == i) by {
                        if i < old(self).dense().len() {
                            assert(old(self).pos_of(old(self).dense()[i]) matches Some(q) && q
                                as int == i);
                            assert(old(self).dense()[i] != idx);
                        } else {
                            assert(self.dense()[i] == idx);
                        }
                    }
                    assert forall|jx: u32| (#[trigger] self.pos_of(jx)) is Some implies self.pos_of(
                        jx,
                    )->0 < self.dense().len() && self.dense()[self.pos_of(jx)->0 as int]
                        == jx by {
                        if jx != idx {
                            assert(self.pos_of(jx) == old(self).pos_of(jx));
                            if old(self).pos_of(jx) is Some {
                                let q = old(self).pos_of(jx)->0;
                                assert(old(self).dense()[q as int] == jx);
                            }
                        }
                    }
                }
                Ok(())
            },
        }
    }

    /// Drops the component for the entity's slot; a no-op when absent. The
    /// last dense entry is swapped into the vacated position.
    pub fn remove(&mut self, entity: Entity)
        requires
            old(self).wf(),
        ensures
            final(self).wf(),
            !old(self).contains_idx(entity.spec_idx()) ==> *final(self) == *old(self),
            old(self).contains_idx(entity.spec_idx()) ==> {
                let idx = entity.spec_idx();
                let p = old(self).pos_of(idx)->0 as int;
                &&& final(self).dense() == old(self).dense().update(
                    p,
                    old(self).dense().last(),
                ).drop_last()
                &&& final(self).values() == old(self).values().update(
                    p,
                    old(self).values().last(),
                ).drop_last()
                &&& !final(self).contains_idx(idx)
                &&& forall|j: u32|
                    j != idx && j != old(self).dense().last() ==> #[trigger] final(self).pos_of(j)
                        == old(self).pos_of(j)
                &&& (p < old(self).dense().len() - 1 ==> final(self).pos_of(
                    old(self).dense().last(),
                ) == Some(p as usize))
            },
    {
        let index = entity.index() as usize;
        if index >= self.sparse_map.len() {
            return ;
        }
        let slot = self.sparse_map[index];
        match slot {
            None => {},
            Some(dense_index) => {
                proof {
                    assert(old(self).pos_of(entity.spec_idx()) == Some(dense_index));
                    assert(old(self).dense()[dense_index as int] == entity.spec_idx());
                    assert(old(self).dense().len() == old(self).values().len());
                }
                self.components.swap_remove(dense_index);
                let _ = self.entities.swap_remove(dense_index);
                if dense_index < self.entities.len() {
                    let moved = self.entities[dense_index];
                    proof {
                        let last = old(self).dense().len() - 1;
                        assert(moved == old(self).dense()[last]);
                        assert(old(self).pos_of(moved) matches Some(q) && q as int == last);
                    }
                    self.sparse_map[moved as usize] = Some(dense_index);
                }
                self.sparse_map[index] = None;
                proof {
                    lemma_ecs_remove_wf(*old(self), *self, entity.spec_idx(), dense_index);
                }
            },
        }
    }

    /// Looks up the component for the entity's slot index.
    pub fn get(&self, entity: Entity) -> (r: Option<&T>)
        requires
            self.wf(),
        ensures
            match r {
                Some(v) => self.contains_idx(entity.spec_idx()) && *v == self.value_of(
                    entity.spec_idx(),
                ),
                None => !self.contains_idx(entity.spec_idx()),
            },
    {
        match self.contains(entity) {
            Some(dense_index) => Some(&self.components[dense_index]),
            None => None,
        }
    }

    /// Number of entities currently carrying this component.
    pub fn len(&self) -> (r: usize)
        ensures
            r == self.dense().len(),
    {
        self.entities.len()
    }
}

/// Swap-removing an occupied position and patching the two affected table
/// slots preserves the density invariant.
proof fn lemma_ecs_remove_wf<T>(
    pre: EntityComponentSet<T>,
    post: EntityComponentSet<T>,
    idx: u32,
    p: usize,
)
    requires
        pre.wf(),
        pre.pos_of(idx) == Some(p),
        post.dense() == pre.dense().update(p as int, pre.dense().last()).drop_last(),
        post.values() == pre.values().update(p as int, pre.values().last()).drop_last(),
        post.sparse_seq().len() == pre.sparse_seq().len(),
        (p as int) < pre.dense().len() - 1 ==> post.sparse_seq() == pre.sparse_seq().update(
            pre.dense().last() as int,
            Some(p),
        ).update(idx as int, None),
        p as int == pre.dense().len() - 1 ==> post.sparse_seq() == pre.sparse_seq().update(
            idx as int,
            None,
        ),
    ensures
        post.wf(),
        !post.contains_idx(idx),
        forall|j: u32|
            j != idx && j != pre.dense().last() ==> #[trigger] post.pos_of(j) == pre.pos_of(j),
        (p as int) < pre.dense().len() - 1 ==> post.pos_of(pre.dense().last()) == Some(p),
{
    let last = pre.dense().len() - 1;
    let last_idx = pre.dense()[last];
    assert(p as int <= last);
    assert(pre.dense()[p as int] == idx);
    assert(pre.pos_of(last_idx) matches Some(q) && q as int == last);
    if (p as int) < last {
        assert(last_idx != idx);
    }
    assert forall|i: int| 0 <= i < post.dense().len() implies (post.pos_of(
        #[trigger] post.dense()[i],
    ) matches Some(q) && q as int == i) by {
        if i == p as int {
            assert(post.dense()[i] == last_idx);
        } else {
            assert(post.dense()[i] == pre.dense()[i]);
            assert(pre.pos_of(pre.dense()[i]) matches Some(q) && q as int == i);
            assert(pre.dense()[i] != idx);
            assert(pre.dense()[i] != last_idx);
        }
    }
    assert forall|jx: u32| (#[trigger] post.pos_of(jx)) is Some implies post.pos_of(jx)->0
        < post.dense().len() && post.dense()[post.pos_of(jx)->0 as int] == jx by {
        if jx == last_idx && (p as int) < last {
            assert(post.pos_of(jx) == Some(p));
            assert(post.dense()[p as int] == last_idx);
        } else {
            assert(jx != idx);
            assert(post.pos_of(jx) == pre.pos_of(jx));
            let q = pre.pos_of(jx)->0;
            assert(pre.dense()[q as int] == jx);
            assert(pre.pos_of(pre.dense()[q as int]) matches Some(w) && w as int == q as int);
            assert(q as int != last);
            assert(q != p);
            assert(post.dense()[q as int] == pre.dense()[q as int]);
        }
    }
}

} // verus!
