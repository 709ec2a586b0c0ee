//! Host CPU identifiers.
use vstd::prelude::*;

verus! {

/// The hardware identifier of a host CPU (an MPIDR affinity value, a hart
/// identifier or an APIC identifier).
#[derive(Clone, Copy, Debug, PartialEq, Eq, PartialOrd, Ord, Hash, Structural)]
pub struct CpuHardId(pub usize);

impl CpuHardId {
    /// Wraps a raw hardware identifier.
    pub fn new(raw: usize) -> (r: Self)
        ensures
            r.0 == raw,
    {
        CpuHardId(raw)
    }

    /// The raw hardware identifier.
    pub fn raw(&self) -> (r: usize)
        ensures
            r == self.0,
    {
        self.0
    }
}

/// The logical index of a host CPU.
#[derive(Clone, Copy, Debug, PartialEq, Eq, PartialOrd, Ord, Hash, Structural)]
pub struct CpuId(pub usize);

impl CpuId {
    /// Wraps a raw logical index.
    pub fn new(raw: usize) -> (r: Self)
        ensures
            r.0 == raw,
    {
        CpuId(raw)
    }

    /// The raw logical index.
    pub fn raw(&self) -> (r: usize)
        ensures
            r == self.0,
    {
        self.0
    }
}

} // verus!

use bitmap_allocator::{BitAlloc, BitAlloc4K};

verus! {

/// A bitmap of 4096 host CPU slots, held by `bitmap_allocator::BitAlloc4K`.
#[verifier::external_body]
pub struct CpuBitmap {
    bits: BitAlloc4K,
}

/// The slots that a bitmap holds free.
pub uninterp spec fn bitmap_free(a: CpuBitmap) -> Set<usize>;

/// The number of slots of a bitmap: `BitAlloc4K::CAP`.
pub const CPU_BITMAP_CAP: usize = 4096;

/// A bitmap with no free slot: `BitAlloc4K::default()`, whose bitsets are
/// all zero.
#[verifier::external_body]
fn bitmap_new() -> (r: CpuBitmap)
    ensures
        bitmap_free(r) == Set::<usize>::empty(),
{
    CpuBitmap { bits: BitAlloc4K::default() }
}

/// Marks the slots `start..end` free with `BitAlloc::insert`, which sets
/// their bits and keeps the others. It panics on an empty range (an assert
/// of `bit_field` on the leaf bitmap) and on `end > 4096`.
#[verifier::external_body]
fn bitmap_insert(a: &mut CpuBitmap, start: usize, end: usize)
    requires
        start < end <= CPU_BITMAP_CAP,
    ensures
        bitmap_free(*final(a)) == bitmap_free(*old(a)).union(
            Set::new(|k: usize| start <= k < end),
        ),
{
    a.bits.insert(start..end)
}

/// Takes the lowest free slot with `BitAlloc::alloc`: the cascade picks
/// the first non-empty sub-bitmap (`trailing_zeros` of its summary bits)
/// and, down to the leaf, the lowest set bit, which it clears. With no
/// free slot it returns `None` and changes nothing.
#[verifier::external_body]
fn bitmap_alloc(a: &mut CpuBitmap) -> (r: Option<usize>)
    ensures
        match r {
            Some(k) => {
                &&& bitmap_free(*old(a)).contains(k)
                &&& forall|j: usize| bitmap_free(*old(a)).contains(j) ==> k <= j
                &&& bitmap_free(*final(a)) == bitmap_free(*old(a)).remove(k)
            },
            None => {
                &&& bitmap_free(*old(a)) == Set::<usize>::empty()
                &&& bitmap_free(*final(a)) == bitmap_free(*old(a))
            },
        },
{
    a.bits.alloc()
}

/// Takes the slot `base` with `BitAlloc::alloc_contiguous(Some(base), 1,
/// 0)`: `check_contiguous` accepts a block of one slot with no alignment
/// exactly when `base` is below the capacity and its bit is set, and the
/// call then clears that bit and returns `Some(base)`; otherwise it
/// returns `None` and changes nothing.
#[verifier::external_body]
fn bitmap_alloc_at(a: &mut CpuBitmap, base: usize) -> (r: Option<usize>)
    ensures
        bitmap_free(*old(a)).contains(base) ==> {
            &&& r == Some(base)
            &&& bitmap_free(*final(a)) == bitmap_free(*old(a)).remove(base)
        },
        !bitmap_free(*old(a)).contains(base) ==> {
            &&& r is None
            &&& bitmap_free(*final(a)) == bitmap_free(*old(a))
        },
{
    a.bits.alloc_contiguous(Some(base), 1, 0)
}

/// Frees the slot `key` with `BitAlloc::dealloc`, which sets its bit and
/// returns whether it was clear. A key at or above 4096 indexes past the
/// sub-bitmaps and panics.
#[verifier::external_body]
fn bitmap_dealloc(a: &mut CpuBitmap, key: usize) -> (r: bool)
    requires
        key < CPU_BITMAP_CAP,
    ensures
        r == !bitmap_free(*old(a)).contains(key),
        bitmap_free(*final(a)) == bitmap_free(*old(a)).insert(key),
{
    a.bits.dealloc(key)
}

} // verus!

verus! {

/// The host CPUs that no vCPU holds yet.
pub struct HCpuAllocator {
    bitmap: CpuBitmap,
}

impl View for HCpuAllocator {
    type V = Set<usize>;

    /// The logical indices of the free host CPUs.
    closed spec fn view(&self) -> Set<usize> {
        bitmap_free(self.bitmap)
    }
}

impl HCpuAllocator {
    /// Whether every free index is a slot of the bitmap.
    pub closed spec fn wf(&self) -> bool {
        forall|k: usize| #[trigger] self@.contains(k) ==> k < CPU_BITMAP_CAP
    }

    /// An allocator with no free host CPU.
    pub fn new() -> (r: Self)
        ensures
            r.wf(),
            r@ == Set::<usize>::empty(),
    {
        HCpuAllocator { bitmap: bitmap_new() }
    }

    /// Marks the host CPUs `0..cpu_count` free, as the hypervisor does
    /// once every core has enabled virtualization.
    pub fn add_cpus(&mut self, cpu_count: usize)
        requires
            old(self).wf(),
            0 < cpu_count <= CPU_BITMAP_CAP,
        ensures
            final(self).wf(),
            final(self)@ == old(self)@.union(Set::new(|k: usize| k < cpu_count)),
    {
        bitmap_insert(&mut self.bitmap, 0, cpu_count);
        assert(Set::new(|k: usize| 0 <= k < cpu_count) =~= Set::new(|k: usize| k < cpu_count));
        assert forall|k: usize| #[trigger] self@.contains(k) implies k < CPU_BITMAP_CAP by {
            if !old(self)@.contains(k) {
                assert(Set::new(|k: usize| k < cpu_count).contains(k));
            }
        }
    }

    /// Gives back a host CPU taken with [`HCpuExclusive::try_new`].
    pub fn release(&mut self, cpu: HCpuExclusive)
        requires
            old(self).wf(),
        ensures
            final(self).wf(),
            final(self)@ == old(self)@.insert(cpu.id_spec().0),
    {
        proof {
            use_type_invariant(&cpu);
        }
        let _ = bitmap_dealloc(&mut self.bitmap, cpu.0.raw());
        assert forall|k: usize| #[trigger] self@.contains(k) implies k < CPU_BITMAP_CAP by {
            if k != cpu.0.0 {
                assert(old(self)@.contains(k));
            }
        }
    }
}

/// Exclusive use of one host CPU, taken from an [`HCpuAllocator`].
#[derive(Debug)]
pub struct HCpuExclusive(CpuId);

impl HCpuExclusive {
    #[verifier::type_invariant]
    spec fn inv(self) -> bool {
        self.0.0 < CPU_BITMAP_CAP
    }

    /// The logical index of the host CPU held.
    pub closed spec fn id_spec(&self) -> CpuId {
        self.0
    }

    /// The logical index of the host CPU held.
    pub fn id(&self) -> (r: CpuId)
        ensures
            r == self.id_spec(),
    {
        self.0
    }

    /// The logical index of the host CPU held.
    pub fn cpu_id(&self) -> (r: CpuId)
        ensures
            r == self.id_spec(),
    {
        self.0
    }

    /// Takes the host CPU `id` if it is free, or, for `None`, the free
    /// host CPU with the lowest index; `None` when there is no such CPU.
    pub fn try_new(alloc: &mut HCpuAllocator, id: Option<CpuId>) -> (r: Option<Self>)
        requires
            old(alloc).wf(),
        ensures
            final(alloc).wf(),
            match id {
                Some(want) => if old(alloc)@.contains(want.0) {
                    &&& r matches Some(c) && c.id_spec() == want
                    &&& final(alloc)@ == old(alloc)@.remove(want.0)
                } else {
                    &&& r is None
                    &&& final(alloc)@ == old(alloc)@
                },
                None => if old(alloc)@ == Set::<usize>::empty() {
                    &&& r is None
                    &&& final(alloc)@ == old(alloc)@
                } else {
                    &&& r matches Some(c) && old(alloc)@.contains(c.id_spec().0) && (forall|j: usize|
                        #[trigger] old(alloc)@.contains(j) ==> c.id_spec().0 <= j)
                    &&& final(alloc)@ == old(alloc)@.remove(r->0.id_spec().0)
                },
            },
    {
        match id {
            Some(want) => {
                let got = bitmap_alloc_at(&mut alloc.bitmap, want.raw());
                match got {
                    Some(raw) => {
                        assert(old(alloc)@.contains(raw));
                        Some(HCpuExclusive(CpuId::new(raw)))
                    },
                    None => None,
                }
            },
            None => {
                let got = bitmap_alloc(&mut alloc.bitmap);
                match got {
                    Some(raw) => {
                        assert(old(alloc)@.contains(raw));
                        Some(HCpuExclusive(CpuId::new(raw)))
                    },
                    None => None,
                }
            },
        }
    }
}

/// A host CPU taken from the free set is no longer free, so it cannot be
/// taken twice; giving it back restores the free set as it was.
pub proof fn lemma_release_undoes_take(free: Set<usize>, k: usize)
    requires
        free.contains(k),
    ensures
        !free.remove(k).contains(k),
        free.remove(k).insert(k) == free,
{
    assert(free.remove(k).insert(k) =~= free);
}

} // verus!
