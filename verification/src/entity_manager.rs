use vstd::prelude::*;

use crate::entity::{EcsError, Entity, MAX_N_ENTITIES};

verus! {

/// The next generation counter after a deallocation: one more, wrapping at
/// the 32-bit boundary. Callers treat the wraparound as a theoretical, not
/// practical, collision risk.
pub open spec fn wrap_inc(g: u32) -> u32 {
    if g == u32::MAX {
        0
    } else {
        (g + 1) as u32
    }
}

/// Allocates and recycles entity handles. Owns no component data.
///
/// `generations` holds one counter per slot ever allocated (its length is the
/// highwater mark); `free_list` holds the deallocated slot indices available
/// for reuse, most recently freed on top.
pub struct EntityManager {
    generations: Vec<u32>,
    free_list: Vec<u32>,
    max_slots: usize,
}

impl EntityManager {
    /// Per-slot generation counters, indexed by slot index.
    pub closed spec fn gens(self) -> Seq<u32> {
        self.generations@
    }

    /// Slot indices available for reuse, in stack order.
    pub closed spec fn free(self) -> Seq<u32> {
        self.free_list@
    }

    /// The configured maximum slot count.
    pub closed spec fn max(self) -> usize {
        self.max_slots
    }

    pub open spec fn wf(self) -> bool {
        &&& self.max() <= MAX_N_ENTITIES
        &&& self.gens().len() <= self.max()
        &&& forall|i: int|
            0 <= i < self.free().len() ==> (#[trigger] self.free()[i]) < self.gens().len()
    }

    /// A handle is alive exactly when its slot exists and its generation
    /// matches the slot's current counter; anything else is stale.
    pub open spec fn spec_alive(self, e: Entity) -> bool {
        &&& e.spec_idx() < self.gens().len()
        &&& self.gens()[e.spec_idx() as int] == e.spec_gen()
    }

    /// Whether a further fresh allocation is impossible: every slot is in use
    /// and the highwater mark has reached the configured maximum.
    pub open spec fn at_capacity(self) -> bool {
        self.gens().len() >= self.max() && self.free().len() == 0
    }

    pub fn new() -> (r: EntityManager)
        ensures
            r.wf(),
            r.gens() == Seq::<u32>::empty(),
            r.free() == Seq::<u32>::empty(),
            r.max() == MAX_N_ENTITIES,
    {
        EntityManager { generations: Vec::new(), free_list: Vec::new(), max_slots: MAX_N_ENTITIES }
    }

    /// Like `new`, with a smaller maximum slot count.
    pub fn with_max_slots(max_slots: usize) -> (r: EntityManager)
        requires
            max_slots <= MAX_N_ENTITIES,
        ensures
            r.wf(),
            r.gens() == Seq::<u32>::empty(),
            r.free() == Seq::<u32>::empty(),
            r.max() == max_slots,
    {
        EntityManager { generations: Vec::new(), free_list: Vec::new(), max_slots }
    }

    /// Hands out a handle: the most recently freed slot with its current
    /// generation when one is available, otherwise a fresh slot at
    /// generation zero. Fails, changing nothing, exactly when the slot
    /// capacity is exhausted — a fatal condition, not a routine absence.
    pub fn allocate(&mut self) -> (r: Result<Entity, EcsError>)
        requires
            old(self).wf(),
        ensures
            final(self).wf(),
            final(self).max() == old(self).max(),
            r is Err <==> old(self).at_capacity(),
            r is Err ==> r == Err::<Entity, EcsError>(EcsError::SlotCapacityExceeded)
                && *final(self) == *old(self),
            r matches Ok(e) ==> allocate_step(*old(self), *final(self), e),
    {
        if self.generations.len() >= self.max_slots && self.free_list.len() == 0 {
            return Err(EcsError::SlotCapacityExceeded);
        }
        let (index, generation): (u32, u32) = match self.free_list.pop() {
            Some(index) => {
                proof {
                    assert(old(self).free()[old(self).free().len() - 1] < old(self).gens().len());
                }
                (index, self.generations[index as usize])
            },
            None => {
                let index = self.generations.len();
                self.generations.push(0);
                (index as u32, 0)
            },
        };
        Ok(Entity::new(index, generation))
    }

    /// Frees the handle's slot, keyed by index alone: the generation of the
    /// passed-in handle is not consulted. Returns `false` (and does nothing)
    /// only when the index was never allocated.
    pub fn deallocate(&mut self, entity: Entity) -> (r: bool)
        requires
            old(self).wf(),
        ensures
            final(self).wf(),
            final(self).max() == old(self).max(),
            r == (entity.spec_idx() < old(self).gens().len()),
            !r ==> *final(self) == *old(self),
            r ==> deallocate_step(*old(self), *final(self), entity),
    {
        let index = entity.index() as usize;
        if index >= self.generations.len() {
            return false;
        }
        let g = self.generations[index];
        let next: u32 = if g == u32::MAX {
            0
        } else {
            g + 1
        };
        self.generations[index] = next;
        self.free_list.push(index as u32);
        proof {
            assert forall|i: int| 0 <= i < self.free().len() implies (#[trigger] self.free()[i])
                < self.gens().len() by {
                if i < old(self).free().len() {
                    assert(old(self).free()[i] < old(self).gens().len());
                }
            }
        }
        true
    }

    pub fn is_alive(&self, entity: Entity) -> (r: bool)
        ensures
            r == self.spec_alive(entity),
    {
        let index = entity.index() as usize;
        if index >= self.generations.len() {
            return false;
        }
        entity.generation() == self.generations[index]
    }
}

/// How one successful allocation changes the manager: a slot is popped off
/// the free list and reused with its current generation, or, with the free
/// list empty, a fresh slot is appended at generation zero. Either way the
/// returned handle is alive afterwards.
pub open spec fn allocate_step(pre: EntityManager, post: EntityManager, e: Entity) -> bool {
    &&& post.max() == pre.max()
    &&& if pre.free().len() > 0 {
        &&& e.spec_idx() == pre.free().last()
        &&& e.spec_gen() == pre.gens()[e.spec_idx() as int]
        &&& post.gens() == pre.gens()
        &&& post.free() == pre.free().drop_last()
    } else {
        &&& e.spec_idx() as int == pre.gens().len()
        &&& e.spec_gen() == 0
        &&& post.gens() == pre.gens().push(0u32)
        &&& post.free() == pre.free()
    }
    &&& post.spec_alive(e)
}

/// How one successful deallocation changes the manager: the slot's generation
/// counter advances by one (wrapping), and the index goes on top of the free
/// list. A handle that was alive for that slot is stale afterwards.
pub open spec fn deallocate_step(pre: EntityManager, post: EntityManager, e: Entity) -> bool {
    &&& e.spec_idx() < pre.gens().len()
    &&& post.max() == pre.max()
    &&& post.gens() == pre.gens().update(
        e.spec_idx() as int,
        wrap_inc(pre.gens()[e.spec_idx() as int]),
    )
    &&& post.free() == pre.free().push(e.spec_idx())
    &&& (pre.spec_alive(e) ==> !post.spec_alive(e))
}

/// Law (generation monotonicity): every deallocation changes the slot's
/// generation counter, and strictly increases it short of the single
/// wraparound edge case. Repeated allocate/deallocate cycles on one index
/// therefore produce strictly increasing generation values until wraparound.
pub proof fn lemma_generation_monotonic(pre: EntityManager, post: EntityManager, e: Entity)
    requires
        deallocate_step(pre, post, e),
    ensures
        post.gens()[e.spec_idx() as int] != pre.gens()[e.spec_idx() as int],
        pre.gens()[e.spec_idx() as int] != u32::MAX ==> post.gens()[e.spec_idx() as int] > pre.gens()[
            e.spec_idx() as int
        ],
{
}

/// Law: two handles that share a slot index but differ in generation are
/// never both alive, in any manager state: at most one generation can match
/// the slot's current counter.
pub proof fn lemma_alive_generation_unique(m: EntityManager, a: Entity, b: Entity)
    requires
        a.spec_idx() == b.spec_idx(),
        a.spec_gen() != b.spec_gen(),
    ensures
        !(m.spec_alive(a) && m.spec_alive(b)),
{
}

/// Law (recycling correctness): after a live handle's slot is deallocated
/// and then some handle is allocated, the old handle is stale and the new
/// one is alive; if the new handle reuses the old slot, it carries a
/// different generation.
pub proof fn lemma_recycling(
    m0: EntityManager,
    m1: EntityManager,
    m2: EntityManager,
    e: Entity,
    n: Entity,
)
    requires
        m0.spec_alive(e),
        deallocate_step(m0, m1, e),
        allocate_step(m1, m2, n),
    ensures
        !m2.spec_alive(e),
        m2.spec_alive(n),
        n.spec_idx() == e.spec_idx() ==> n.spec_gen() != e.spec_gen(),
{
    let idx = e.spec_idx() as int;
    assert(m1.gens()[idx] == wrap_inc(m0.gens()[idx]));
    assert(m2.gens()[idx] == m1.gens()[idx]);
}

} // verus!
