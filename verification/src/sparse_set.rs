use vstd::prelude::*;

use crate::entity::{EcsError, Entity, MAX_N_ENTITIES};

verus! {

/// Dense, cache-friendly storage for one component type.
///
/// `sparse` maps an entity's slot index to a position in the dense arrays,
/// or `None` when the entity holds no component of this type. `dense` holds
/// the entities that currently have the component; `data[i]` is the value
/// for `dense[i]`. Insert, remove and lookup are O(1); removal swaps the
/// last entry into the vacated position, so dense order is not stable
/// across removals.
pub struct SparseSet<T> {
    sparse: Vec<Option<usize>>,
    dense: Vec<Entity>,
    data: Vec<T>,
}

impl<T> SparseSet<T> {
    /// The entities currently holding this component, in dense order.
    pub closed spec fn entities(self) -> Seq<Entity> {
        self.dense@
    }

    /// The component values, in the same dense order.
    pub closed spec fn values(self) -> Seq<T> {
        self.data@
    }

    /// The sparse lookup table, one slot per entity index ever grown to.
    pub closed spec fn sparse_seq(self) -> Seq<Option<usize>> {
        self.sparse@
    }

    /// The dense position recorded for a slot index, if any; indices beyond
    /// the table's current size are absent.
    pub open spec fn pos_of(self, idx: u32) -> Option<usize> {
        if idx < self.sparse_seq().len() {
            self.sparse_seq()[idx as int]
        } else {
            None
        }
    }

    /// Whether the entity at this slot index holds the component.
    pub open spec fn contains_idx(self, idx: u32) -> bool {
        self.pos_of(idx) is Some
    }

    /// The value stored for a slot index.
    pub open spec fn value_of(self, idx: u32) -> T
        recommends
            self.contains_idx(idx),
    {
        self.values()[self.pos_of(idx)->0 as int]
    }

    /// The set of slot indices currently holding the component.
    pub open spec fn index_set(self) -> Set<u32> {
        Set::new(|idx: u32| self.contains_idx(idx))
    }

    /// The density invariant: dense entities and values stay in lockstep,
    /// every dense entry's sparse slot points back at its position, and
    /// every occupied sparse slot points at a dense entry for that index.
    pub open spec fn wf(self) -> bool {
        &&& self.entities().len() == self.values().len()
        &&& forall|i: int|
            0 <= i < self.entities().len() ==> (self.pos_of(
                (#[trigger] self.entities()[i]).spec_idx(),
            ) matches Some(q) && q as int == i)
        &&& forall|idx: u32|
            (#[trigger] self.pos_of(idx)) is Some ==> self.pos_of(idx)->0
                < self.entities().len() && self.entities()[self.pos_of(idx)->0 as int].spec_idx()
                == idx
    }

    pub fn new() -> (r: SparseSet<T>)
        ensures
            r.wf(),
            r.entities() == Seq::<Entity>::empty(),
            r.values() == Seq::<T>::empty(),
            r.index_set() == Set::<u32>::empty(),
    {
        let r = SparseSet { sparse: Vec::new(), dense: Vec::new(), data: Vec::new() };
        proof {
            assert(r.index_set() =~= Set::<u32>::empty());
        }
        r
    }

    /// Number of entities currently holding this component.
    pub fn len(&self) -> (r: usize)
        ensures
            r == self.entities().len(),
    {
        self.dense.len()
    }

    /// The dense position of the entity's component, keyed by slot index.
    fn index_of(&self, entity: Entity) -> (r: Option<usize>)
        ensures
            r == self.pos_of(entity.spec_idx()),
    {
        let idx = entity.index() as usize;
        if idx < self.sparse.len() {
            self.sparse[idx]
        } else {
            None
        }
    }

    /// Grows the sparse table with empty slots until it covers `idx`.
    fn grow_sparse(&mut self, idx: usize)
        requires
            idx < MAX_N_ENTITIES,
        ensures
            final(self).sparse_seq().len() > idx,
            final(self).sparse_seq().len() >= old(self).sparse_seq().len(),
            forall|j: int|
                0 <= j < final(self).sparse_seq().len() ==> (#[trigger] final(self).sparse_seq()[j])
                    == (if j < old(self).sparse_seq().len() {
                    old(self).sparse_seq()[j]
                } else {
                    None
                }),
            final(self).entities() == old(self).entities(),
            final(self).values() == old(self).values(),
    {
        while self.sparse.len() <= idx
            invariant
                idx < MAX_N_ENTITIES,
                self.sparse_seq().len() >= old(self).sparse_seq().len(),
                forall|j: int|
                    0 <= j < self.sparse_seq().len() ==> (#[trigger] self.sparse_seq()[j]) == (if j
                        < old(self).sparse_seq().len() {
                        old(self).sparse_seq()[j]
                    } else {
                        None
                    }),
                self.dense == old(self).dense,
                self.data == old(self).data,
            decreases idx + 1 - self.sparse.len(),
        {
            self.sparse.push(None);
        }
    }

    /// Gives `entity` this component. If its slot index already holds one,
    /// the dense entry and value are replaced in place and the dense arrays
    /// do not grow; otherwise entity and value are appended. Fails, before
    /// any mutation, only on a slot index beyond the sparse-table bound.
    pub fn insert(&mut self, entity: Entity, value: T) -> (r: Result<(), EcsError>)
        requires
            old(self).wf(),
        ensures
            final(self).wf(),
            r is Err <==> entity.spec_idx() as int >= MAX_N_ENTITIES as int,
            r is Err ==> r == Err::<(), EcsError>(EcsError::IndexLimitExceeded) && *final(self)
                == *old(self),
            r is Ok ==> {
                let idx = entity.spec_idx();
                &&& if old(self).contains_idx(idx) {
                    let p = old(self).pos_of(idx)->0 as int;
                    &&& final(self).entities() == old(self).entities().update(p, entity)
                    &&& final(self).values() == old(self).values().update(p, value)
                    &&& final(self).pos_of(idx) == old(self).pos_of(idx)
                } else {
                    &&& final(self).entities() == old(self).entities().push(entity)
                    &&& final(self).values() == old(self).values().push(value)
                    &&& (final(self).pos_of(idx) matches Some(q) && q as int
                        == old(self).entities().len())
                }
                &&& forall|j: u32| j != idx ==> final(self).pos_of(j) == old(self).pos_of(j)
                &&& final(self).contains_idx(idx)
                &&& final(self).value_of(idx) == value
                &&& final(self).index_set() == old(self).index_set().insert(idx)
            },
    {
        let idx = entity.index() as usize;
        if idx >= MAX_N_ENTITIES {
            return Err(EcsError::IndexLimitExceeded);
        }
        match self.index_of(entity) {
            Some(p) => {
                self.dense[p] = entity;
                self.data[p] = value;
                proof {
                    lemma_insert_replace_wf(*old(self), *self, entity, value, p);
                    assert(self.index_set() =~= old(self).index_set().insert(entity.spec_idx()));
                }
                Ok(())
            },
            None => {
                self.grow_sparse(idx);
                let p = self.dense.len();
                self.dense.push(entity);
                self.data.push(value);
                self.sparse[idx] = Some(p);
                proof {
                    lemma_insert_append_wf(*old(self), *self, entity, value, p);
                    assert(self.index_set() =~= old(self).index_set().insert(entity.spec_idx()));
                }
                Ok(())
            },
        }
    }

    /// Looks up the component for `entity`'s slot index.
    pub fn get(&self, entity: Entity) -> (r: Option<&T>)
        requires
            self.wf(),
        ensures
            match r {
                Some(v) => self.contains_idx(entity.spec_idx()) && *v == self.value_of(
                    entity.spec_idx(),
                ),
                None => !self.contains_idx(entity.spec_idx()),
            },
    {
        match self.index_of(entity) {
            Some(p) => Some(&self.data[p]),
            None => None,
        }
    }

    /// Mutable lookup; only the looked-up value can change through the
    /// returned reference, everything else stays as it was.
    pub fn get_mut(&mut self, entity: Entity) -> (r: Option<&mut T>)
        requires
            old(self).wf(),
        ensures
            r is Some <==> old(self).contains_idx(entity.spec_idx()),
            r is None ==> *final(self) == *old(self),
            r matches Some(v) ==> {
                let p = old(self).pos_of(entity.spec_idx())->0 as int;
                &&& *v == old(self).value_of(entity.spec_idx())
                &&& final(self).entities() == old(self).entities()
                &&& final(self).sparse_seq() == old(self).sparse_seq()
                &&& final(self).values() == old(self).values().update(p, *final(v))
                &&& final(self).wf()
            },
    {
        proof {
            broadcast use lemma_wf_structural;

        }
        match self.index_of(entity) {
            Some(p) => Some(&mut self.data[p]),
            None => None,
        }
    }

    /// Drops the component for `entity`'s slot index; a no-op when absent.
    /// The last dense entry is swapped into the vacated position, so exactly
    /// one other entity moves (none when the removed entry was last).
    pub fn remove(&mut self, entity: Entity)
        requires
            old(self).wf(),
        ensures
            final(self).wf(),
            !old(self).contains_idx(entity.spec_idx()) ==> *final(self) == *old(self),
            old(self).contains_idx(entity.spec_idx()) ==> removed_from(
                *old(self),
                *final(self),
                entity.spec_idx(),
            ),
    {
        self.remove_index(entity.index());
    }

    /// `remove`, keyed directly by slot index.
    pub(crate) fn remove_index(&mut self, idx32: u32)
        requires
            old(self).wf(),
        ensures
            final(self).wf(),
            !old(self).contains_idx(idx32) ==> *final(self) == *old(self),
            old(self).contains_idx(idx32) ==> removed_from(*old(self), *final(self), idx32),
    {
        let idx = idx32 as usize;
        if idx >= self.sparse.len() {
            return ;
        }
        let slot = self.sparse[idx];
        match slot {
            None => {},
            Some(p) => {
                proof {
                    assert(old(self).pos_of(idx32) == Some(p));
                    assert(old(self).entities()[p as int].spec_idx() == idx32);
                    assert(old(self).entities().len() == old(self).values().len());
                }
                self.dense.swap_remove(p);
                self.data.swap_remove(p);
                if p < self.dense.len() {
                    let moved = self.dense[p];
                    let m_idx = moved.index() as usize;
                    proof {
                        let last = old(self).entities().len() - 1;
                        assert(moved == old(self).entities()[last]);
                        assert(old(self).pos_of(moved.spec_idx()) matches Some(q) && q as int
                            == last);
                    }
                    self.sparse[m_idx] = Some(p);
                }
                self.sparse[idx] = None;
                proof {
                    lemma_remove_wf(*old(self), *self, idx32, p);
                    assert(self.index_set() =~= old(self).index_set().remove(idx32));
                }
            },
        }
    }

    /// A fresh pass over the current dense order: the entities that hold
    /// this component, first to last. Component values are reachable through
    /// `get` or by dense position through `pair_at`.
    pub fn iter(&self) -> (r: Vec<Entity>)
        requires
            self.wf(),
        ensures
            r@ == self.entities(),
    {
        let mut out: Vec<Entity> = Vec::new();
        let mut i: usize = 0;
        while i < self.dense.len()
            invariant
                i <= self.dense.len(),
                out@ == self.entities().take(i as int),
            decreases self.dense.len() - i,
        {
            out.push(self.dense[i]);
            proof {
                assert(out@ =~= self.entities().take(i + 1));
            }
            i += 1;
        }
        proof {
            assert(self.entities().take(self.entities().len() as int) =~= self.entities());
        }
        out
    }

    /// The entity and a borrow of its value at one dense position.
    pub fn pair_at(&self, i: usize) -> (r: (Entity, &T))
        requires
            self.wf(),
            i < self.entities().len(),
        ensures
            r.0 == self.entities()[i as int],
            *r.1 == self.values()[i as int],
    {
        (self.dense[i], &self.data[i])
    }

    /// Mutable access to one dense position; only that value can change
    /// through the returned reference.
    pub fn iter_mut(&mut self, i: usize) -> (r: (Entity, &mut T))
        requires
            old(self).wf(),
            i < old(self).entities().len(),
        ensures
            r.0 == old(self).entities()[i as int],
            *r.1 == old(self).values()[i as int],
            final(self).entities() == old(self).entities(),
            final(self).sparse_seq() == old(self).sparse_seq(),
            final(self).values() == old(self).values().update(i as int, *final(r.1)),
            final(self).wf(),
    {
        proof {
            broadcast use lemma_wf_structural;

        }
        (self.dense[i], &mut self.data[i])
    }
}

/// The density invariant does not mention the stored values: any state that
/// keeps the entities and the sparse table of a well-formed set, and only
/// swaps values for values, is well-formed too.
pub broadcast proof fn lemma_wf_structural<T>(a: SparseSet<T>, b: SparseSet<T>)
    requires
        #[trigger] a.wf(),
        b.entities() == a.entities(),
        b.sparse_seq() == a.sparse_seq(),
        b.values().len() == a.values().len(),
    ensures
        #[trigger] b.wf(),
{
    assert forall|i: int| 0 <= i < b.entities().len() implies (b.pos_of(
        (#[trigger] b.entities()[i]).spec_idx(),
    ) matches Some(q) && q as int == i) by {
        assert(a.pos_of(a.entities()[i].spec_idx()) matches Some(q) && q as int == i);
    }
    assert forall|jx: u32| (#[trigger] b.pos_of(jx)) is Some implies b.pos_of(jx)->0
        < b.entities().len() && b.entities()[b.pos_of(jx)->0 as int].spec_idx() == jx by {
        assert(a.pos_of(jx) is Some);
    }
}

/// Which indices hold a component is determined by the sparse table alone.
pub broadcast proof fn lemma_index_set_structural<T>(a: SparseSet<T>, b: SparseSet<T>)
    requires
        a.sparse_seq() == b.sparse_seq(),
    ensures
        #[trigger] a.index_set() == #[trigger] b.index_set(),
{
    assert(a.index_set() =~= b.index_set());
}

/// How a successful removal of slot index `idx` changes a sparse set: the
/// dense entry at the vacated position is overwritten by the previous last
/// entry and the arrays shrink by one (a swap-remove); the vacated index
/// becomes absent, the moved entity's sparse slot is redirected, and no
/// other index changes.
pub open spec fn removed_from<T>(pre: SparseSet<T>, post: SparseSet<T>, idx: u32) -> bool {
    let p = pre.pos_of(idx)->0 as int;
    let last = pre.entities().len() - 1;
    &&& pre.contains_idx(idx)
    &&& post.entities() == pre.entities().update(p, pre.entities().last()).drop_last()
    &&& post.values() == pre.values().update(p, pre.values().last()).drop_last()
    &&& !post.contains_idx(idx)
    &&& (p < last ==> post.pos_of(pre.entities()[last].spec_idx()) == Some(p as usize))
    &&& forall|j: u32|
        j != idx && j != pre.entities()[last].spec_idx() ==> #[trigger] post.pos_of(j)
            == pre.pos_of(j)
    &&& post.index_set() == pre.index_set().remove(idx)
}

/// Replacing in place at an occupied position preserves the density
/// invariant and every sparse slot.
proof fn lemma_insert_replace_wf<T>(
    pre: SparseSet<T>,
    post: SparseSet<T>,
    entity: Entity,
    value: T,
    p: usize,
)
    requires
        pre.wf(),
        pre.pos_of(entity.spec_idx()) == Some(p),
        post.sparse_seq() == pre.sparse_seq(),
        post.entities() == pre.entities().update(p as int, entity),
        post.values() == pre.values().update(p as int, value),
    ensures
        post.wf(),
        forall|j: u32| #[trigger] post.pos_of(j) == pre.pos_of(j),
{
    assert(p < pre.entities().len());
    assert(pre.entities()[p as int].spec_idx() == entity.spec_idx());
    assert forall|i: int| 0 <= i < post.entities().len() implies (post.pos_of(
        (#[trigger] post.entities()[i]).spec_idx(),
    ) matches Some(q) && q as int == i) by {
        if i == p as int {
            assert(post.entities()[i] == entity);
        } else {
            assert(post.entities()[i] == pre.entities()[i]);
            assert(pre.pos_of(pre.entities()[i].spec_idx()) matches Some(q) && q as int == i);
        }
    }
    assert forall|jx: u32| (#[trigger] post.pos_of(jx)) is Some implies post.pos_of(jx)->0
        < post.entities().len() && post.entities()[post.pos_of(jx)->0 as int].spec_idx()
        == jx by {
        assert(pre.pos_of(jx) is Some);
        let q = pre.pos_of(jx)->0;
        assert(pre.entities()[q as int].spec_idx() == jx);
        if q == p {
            assert(jx == entity.spec_idx());
        }
    }
}

/// Appending a fresh entity at the end and pointing its sparse slot at the
/// new position preserves the density invariant and no other sparse slot.
proof fn lemma_insert_append_wf<T>(
    pre: SparseSet<T>,
    post: SparseSet<T>,
    entity: Entity,
    value: T,
    p: usize,
)
    requires
        pre.wf(),
        !pre.contains_idx(entity.spec_idx()),
        p as int == pre.entities().len(),
        entity.spec_idx() < post.sparse_seq().len(),
        post.sparse_seq().len() >= pre.sparse_seq().len(),
        forall|j: int|
            0 <= j < post.sparse_seq().len() && j != entity.spec_idx() as int ==> (
            #[trigger] post.sparse_seq()[j]) == (if j < pre.sparse_seq().len() {
                pre.sparse_seq()[j]
            } else {
                None
            }),
        post.sparse_seq()[entity.spec_idx() as int] == Some(p),
        post.entities() == pre.entities().push(entity),
        post.values() == pre.values().push(value),
    ensures
        post.wf(),
        post.pos_of(entity.spec_idx()) == Some(p),
        forall|j: u32| j != entity.spec_idx() ==> #[trigger] post.pos_of(j) == pre.pos_of(j),
{
    assert forall|j: u32| j != entity.spec_idx() implies #[trigger] post.pos_of(j) == pre.pos_of(
        j,
    ) by {
        if j < post.sparse_seq().len() {
            assert(post.sparse_seq()[j as int] == (if j < pre.sparse_seq().len() {
                pre.sparse_seq()[j as int]
            } else {
                None
            }));
        }
    }
    assert forall|i: int| 0 <= i < post.entities().len() implies (post.pos_of(
        (#[trigger] post.entities()[i]).spec_idx(),
    ) matches Some(q) && q as int == i) by {
        if i < pre.entities().len() {
            assert(pre.pos_of(pre.entities()[i].spec_idx()) matches Some(q) && q as int == i);
            assert(pre.entities()[i].spec_idx() != entity.spec_idx());
        } else {
            assert(post.entities()[i] == entity);
        }
    }
    assert forall|jx: u32| (#[trigger] post.pos_of(jx)) is Some implies post.pos_of(jx)->0
        < post.entities().len() && post.entities()[post.pos_of(jx)->0 as int].spec_idx()
        == jx by {
        if jx == entity.spec_idx() {
            assert(post.pos_of(jx) == Some(p));
            assert(post.entities()[p as int] == entity);
        } else {
            assert(post.pos_of(jx) == pre.pos_of(jx));
            let q = pre.pos_of(jx)->0;
            assert(pre.entities()[q as int].spec_idx() == jx);
            assert(post.entities()[q as int] == pre.entities()[q as int]);
        }
    }
}

/// Swap-removing an occupied position and patching the two affected sparse
/// slots preserves the density invariant.
proof fn lemma_remove_wf<T>(pre: SparseSet<T>, post: SparseSet<T>, idx: u32, p: usize)
    requires
        pre.wf(),
        pre.pos_of(idx) == Some(p),
        post.entities() == pre.entities().update(p as int, pre.entities().last()).drop_last(),
        post.values() == pre.values().update(p as int, pre.values().last()).drop_last(),
        post.sparse_seq().len() == pre.sparse_seq().len(),
        (p as int) < pre.entities().len() - 1 ==> post.sparse_seq() == pre.sparse_seq().update(
            pre.entities().last().spec_idx() as int,
            Some(p),
        ).update(idx as int, None),
        p as int == pre.entities().len() - 1 ==> post.sparse_seq() == pre.sparse_seq().update(
            idx as int,
            None,
        ),
    ensures
        post.wf(),
        removed_from(pre, post, idx),
{
    let last = pre.entities().len() - 1;
    let last_idx = pre.entities()[last].spec_idx();
    assert(p as int <= last);
    assert(pre.entities()[p as int].spec_idx() == idx);
    assert(pre.pos_of(last_idx) matches Some(q) && q as int == last);
    if (p as int) < last {
        assert(pre.entities()[last].spec_idx() != idx);
    }
    assert forall|i: int| 0 <= i < post.entities().len() implies (post.pos_of(
        (#[trigger] post.entities()[i]).spec_idx(),
    ) matches Some(q) && q as int == i) by {
        if i == p as int {
            assert(post.entities()[i] == pre.entities()[last]);
        } else {
            assert(post.entities()[i] == pre.entities()[i]);
            assert(pre.pos_of(pre.entities()[i].spec_idx()) matches Some(q) && q as int == i);
            assert(pre.entities()[i].spec_idx() != idx);
            assert(pre.entities()[i].spec_idx() != last_idx);
        }
    }
    assert forall|jx: u32| (#[trigger] post.pos_of(jx)) is Some implies post.pos_of(jx)->0
        < post.entities().len() && post.entities()[post.pos_of(jx)->0 as int].spec_idx()
        == jx by {
        if jx == last_idx && (p as int) < last {
            assert(post.pos_of(jx) == Some(p));
            assert(post.entities()[p as int] == pre.entities()[last]);
        } else {
            assert(jx != idx);
            assert(post.pos_of(jx) == pre.pos_of(jx));
            let q = pre.pos_of(jx)->0;
            assert(pre.entities()[q as int].spec_idx() == jx);
            assert(pre.pos_of(pre.entities()[q as int].spec_idx()) matches Some(w) && w as int
                == q as int);
            assert(q as int != last);
            assert(q != p);
            assert(post.entities()[q as int] == pre.entities()[q as int]);
        }
    }
    assert forall|j: u32|
        j != idx && j != pre.entities()[last].spec_idx() implies #[trigger] post.pos_of(j)
        == pre.pos_of(j) by {}
    assert(post.index_set() =~= pre.index_set().remove(idx));
}

} // verus!
