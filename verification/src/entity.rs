use vstd::prelude::*;

verus! {

/// Upper bound on entity slot indices. Exceeding it is a fatal condition: the
/// packed handle representation reserves 32 bits for the index, and the
/// allocator's fixed-capacity design assumes at most this many slots.
pub const MAX_N_ENTITIES: usize = 1000000;

/// The two fatal, non-recoverable conditions: both signal that a
/// fixed-capacity design assumption was violated at an allocation boundary.
/// Routine absence (a missing component, an unregistered type, an index never
/// allocated) is never reported through this type.
#[derive(Clone, Copy, Debug, PartialEq, Eq, Structural)]
pub enum EcsError {
    /// The allocator would exceed its configured maximum slot count.
    SlotCapacityExceeded,
    /// A component insert named a slot index beyond the sparse-table bound.
    IndexLimitExceeded,
}

/// An opaque entity handle: a 64-bit value packing a 32-bit slot `index`
/// (low bits) and a 32-bit `generation` (high bits). Two handles are equal
/// exactly when both fields match. The index identifies a storage slot; the
/// generation disambiguates reuse of that slot over time.
#[derive(Clone, Copy, Debug, PartialEq, Eq, Structural, Hash)]
pub struct Entity(u64);

impl Entity {
    /// The slot index packed into the low 32 bits.
    pub closed spec fn spec_idx(self) -> u32 {
        (self.0 & 0xffff_ffff) as u32
    }

    /// The generation counter packed into the high 32 bits.
    pub closed spec fn spec_gen(self) -> u32 {
        (self.0 >> 32) as u32
    }

    pub fn new(index: u32, generation: u32) -> (r: Entity)
        ensures
            r.spec_idx() == index,
            r.spec_gen() == generation,
    {
        proof {
            assert((((generation as u64) << 32) | (index as u64)) & 0xffff_ffff == index as u64)
                by (bit_vector);
            assert(((((generation as u64) << 32) | (index as u64)) >> 32) == generation as u64)
                by (bit_vector);
        }
        Entity(((generation as u64) << 32) | (index as u64))
    }

    pub fn index(self) -> (r: u32)
        ensures
            r == self.spec_idx(),
    {
        proof {
            let v = self.0;
            assert(v as u32 == (v & 0xffff_ffff) as u32) by (bit_vector);
        }
        #[verifier::truncate] (self.0 as u32)
    }

    pub fn generation(self) -> (r: u32)
        ensures
            r == self.spec_gen(),
    {
        proof {
            let v = self.0;
            assert(v >> 32 <= u32::MAX as u64) by (bit_vector);
        }
        (self.0 >> 32) as u32
    }
}

/// Two handles are equal exactly when both the index and the generation
/// match: the packing into one 64-bit word loses nothing.
pub proof fn lemma_entity_eq(a: Entity, b: Entity)
    ensures
        (a == b) <==> (a.spec_idx() == b.spec_idx() && a.spec_gen() == b.spec_gen()),
{
    let x = a.0;
    let y = b.0;
    assert(((x & 0xffff_ffff) as u32 == (y & 0xffff_ffff) as u32 && (x >> 32) as u32 == (y
        >> 32) as u32) ==> x == y) by (bit_vector);
}

} // verus!
