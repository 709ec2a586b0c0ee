//! Where a machine's memory regions, kernel image and device tree go in
//! guest physical memory, and how bytes are copied into host buffers that
//! back guest memory.
use vstd::prelude::*;

use crate::addr::{align_down_4k, spec_align_down_4k, GuestPhysAddr, HostPhysAddr};
use vstd::arithmetic::power2::pow2;

verus! {

/// How far into a memory region a kernel image without a fixed address is
/// loaded: 2 MiB.
pub const KERNEL_DEFAULT_OFFSET: usize = 0x20_0000;

/// How far into the first memory region the device tree may reach: 512 MiB.
pub const DTB_WINDOW: usize = 0x2000_0000;

/// The sum of the first `k` lengths.
pub open spec fn lens_sum(lens: Seq<usize>, k: int) -> int
    decreases k,
{
    if k <= 0 || k > lens.len() {
        0
    } else {
        lens_sum(lens, k - 1) + lens[k - 1]
    }
}

/// Sums of lengths grow with the number of lengths summed.
pub proof fn lemma_lens_sum_monotone(lens: Seq<usize>, a: int, b: int)
    requires
        0 <= a <= b <= lens.len(),
    ensures
        lens_sum(lens, a) <= lens_sum(lens, b),
    decreases b - a,
{
    if a < b {
        lemma_lens_sum_monotone(lens, a, b - 1);
    }
}

/// One piece of a copy of a byte string into the host buffers that back a
/// stretch of guest memory: `len` bytes from `data_offset` of the data go
/// to `buffer_offset` of buffer `buffer`.
#[derive(Clone, Copy, Debug, PartialEq, Eq, Structural)]
pub struct CopyStep {
    pub buffer: usize,
    pub buffer_offset: usize,
    pub data_offset: usize,
    pub len: usize,
}

/// The number of bytes that the first `k` steps copy.
pub open spec fn steps_len(steps: Seq<CopyStep>, k: int) -> int
    decreases k,
{
    if k <= 0 || k > steps.len() {
        0
    } else {
        steps_len(steps, k - 1) + steps[k - 1].len
    }
}

/// The number of bytes a copy of `data_len` bytes to `skip` bytes into the
/// stretch that buffers of lengths `lens` back can place.
pub open spec fn copy_total(lens: Seq<usize>, skip: int, data_len: int) -> int {
    let room = lens_sum(lens, lens.len() as int) - skip;
    if room <= 0 {
        0
    } else if room < data_len {
        room
    } else {
        data_len
    }
}

/// Whether `steps` copies the data, in order and without a gap, to the
/// bytes of the stretch from `skip` on: each step stays in its buffer,
/// lands where the data it takes belongs, and the steps take buffers in
/// increasing order.
pub open spec fn valid_plan(steps: Seq<CopyStep>, lens: Seq<usize>, skip: int) -> bool {
    &&& forall|k: int|
        #![trigger steps[k]]
        0 <= k < steps.len() ==> {
            &&& steps[k].buffer < lens.len()
            &&& steps[k].len > 0
            &&& steps[k].buffer_offset + steps[k].len <= lens[steps[k].buffer as int]
            &&& steps[k].data_offset == steps_len(steps, k)
            &&& lens_sum(lens, steps[k].buffer as int) + steps[k].buffer_offset == skip + steps[k].data_offset
        }
    &&& forall|j: int, k: int| 0 <= j < k < steps.len() ==> steps[j].buffer < steps[k].buffer
}

/// How to copy `data_len` bytes to `skip` bytes into the stretch of guest
/// memory that host buffers of lengths `buffer_lens` back, in order: the
/// bytes of the data go to consecutive bytes of the stretch, as many as
/// fit.
pub fn plan_copy(buffer_lens: &[usize], skip: usize, data_len: usize) -> (r: Vec<CopyStep>)
    requires
        lens_sum(buffer_lens@, buffer_lens@.len() as int) <= usize::MAX,
    ensures
        valid_plan(r@, buffer_lens@, skip as int),
        steps_len(r@, r@.len() as int) == copy_total(buffer_lens@, skip as int, data_len as int),
{
    let ghost lens = buffer_lens@;
    let mut steps: Vec<CopyStep> = Vec::new();
    let mut skip_left: usize = skip;
    let mut copied: usize = 0;
    let mut i: usize = 0;
    while i < buffer_lens.len() && copied < data_len
        invariant
            i <= lens.len(),
            lens == buffer_lens@,
            lens_sum(lens, lens.len() as int) <= usize::MAX,
            skip_left == (if lens_sum(lens, i as int) <= skip { skip - lens_sum(lens, i as int) } else { 0 }),
            copied as int == (if lens_sum(lens, i as int) <= skip {
                0
            } else if lens_sum(lens, i as int) - skip < data_len {
                lens_sum(lens, i as int) - skip
            } else {
                data_len as int
            }),
            copied <= data_len,
            valid_plan(steps@, lens, skip as int),
            steps_len(steps@, steps@.len() as int) == copied,
            forall|k: int| 0 <= k < steps@.len() ==> #[trigger] steps@[k].buffer < i,
        decreases lens.len() - i,
    {
        let b = buffer_lens[i];
        proof {
            lemma_lens_sum_monotone(lens, i + 1, lens.len() as int);
            assert(lens_sum(lens, i + 1) == lens_sum(lens, i as int) + b);
        }
        if skip_left >= b {
            skip_left = skip_left - b;
        } else {
            let avail = b - skip_left;
            let want = data_len - copied;
            let n = if avail < want { avail } else { want };
            let step = CopyStep { buffer: i, buffer_offset: skip_left, data_offset: copied, len: n };
            let ghost before = steps@;
            steps.push(step);
            proof {
                assert(steps@ =~= before.push(step));
                assert(steps_len(steps@, before.len() as int) == steps_len(before, before.len() as int)) by {
                    lemma_steps_len_prefix(before, step, before.len() as int);
                }
                assert forall|k: int| 0 <= k < steps@.len() implies #[trigger] steps@[k].data_offset
                    == steps_len(steps@, k) by {
                    if k < before.len() {
                        lemma_steps_len_prefix(before, step, k);
                    }
                }
            }
            copied = copied + n;
            skip_left = 0;
        }
        i = i + 1;
    }
    proof {
        lemma_lens_sum_monotone(lens, i as int, lens.len() as int);
    }
    steps
}

/// The lengths of the first `k` steps do not change when a step is added.
proof fn lemma_steps_len_prefix(steps: Seq<CopyStep>, extra: CopyStep, k: int)
    requires
        0 <= k <= steps.len(),
    ensures
        steps_len(steps.push(extra), k) == steps_len(steps, k),
    decreases k,
{
    if k > 0 {
        lemma_steps_len_prefix(steps, extra, k - 1);
    }
}

} // verus!

verus! {

/// A region of guest memory: where it starts in guest and host physical
/// memory and how long it is. The region ends within the address space.
#[derive(Clone, Copy, Debug)]
pub struct GuestMemory {
    gpa: GuestPhysAddr,
    hpa: HostPhysAddr,
    size: usize,
}

impl GuestMemory {
    #[verifier::type_invariant]
    spec fn fits(self) -> bool {
        self.gpa.0 + self.size <= usize::MAX
    }

    /// Where the region starts in guest physical memory.
    pub closed spec fn gpa_spec(self) -> usize {
        self.gpa.0
    }

    /// Where the region starts in host physical memory.
    pub closed spec fn hpa_spec(self) -> usize {
        self.hpa.0
    }

    /// The length of the region.
    pub closed spec fn size_spec(self) -> usize {
        self.size
    }

    /// The region of `size` bytes at `gpa`, backed from `hpa`.
    pub fn new(gpa: GuestPhysAddr, hpa: HostPhysAddr, size: usize) -> (r: Self)
        requires
            gpa.0 + size <= usize::MAX,
        ensures
            r.gpa_spec() == gpa.0,
            r.hpa_spec() == hpa.0,
            r.size_spec() == size,
    {
        GuestMemory { gpa, hpa, size }
    }

    /// Where the region starts in guest physical memory.
    pub fn gpa(&self) -> (r: GuestPhysAddr)
        ensures
            r.0 == self.gpa_spec(),
    {
        self.gpa
    }

    /// Where the region starts in host physical memory.
    pub fn hpa(&self) -> (r: HostPhysAddr)
        ensures
            r.0 == self.hpa_spec(),
    {
        self.hpa
    }

    /// The length of the region, which ends within the address space.
    pub fn size(&self) -> (r: usize)
        ensures
            r == self.size_spec(),
            self.gpa_spec() + self.size_spec() <= usize::MAX,
    {
        proof {
            use_type_invariant(self);
        }
        self.size
    }

    /// How to copy `data_len` bytes to `offset` bytes into the region,
    /// given the lengths of the host buffers that back the whole region,
    /// in order.
    pub fn copy_from_slice(&self, offset: usize, data_len: usize, buffer_lens: &[usize]) -> (r: Vec<
        CopyStep,
    >)
        requires
            offset <= self.size_spec(),
            data_len <= self.size_spec() - offset,
            lens_sum(buffer_lens@, buffer_lens@.len() as int) == self.size_spec(),
        ensures
            valid_plan(r@, buffer_lens@, offset as int),
            steps_len(r@, r@.len() as int) == data_len,
    {
        plan_copy(buffer_lens, offset, data_len)
    }
}

/// Whether the region holds the guest physical address `a`.
pub open spec fn region_holds(m: GuestMemory, a: int) -> bool {
    m.gpa_spec() <= a < m.gpa_spec() + m.size_spec()
}

/// The index of the first region from index `k` on that holds `a`, if any.
pub open spec fn first_holding_from(mems: Seq<GuestMemory>, a: int, k: int) -> Option<int>
    decreases mems.len() - k,
{
    if k < 0 || k >= mems.len() {
        None
    } else if region_holds(mems[k], a) {
        Some(k)
    } else {
        first_holding_from(mems, a, k + 1)
    }
}

/// The index of the first region that holds `a`, if any.
pub open spec fn first_holding(mems: Seq<GuestMemory>, a: int) -> Option<int> {
    first_holding_from(mems, a, 0)
}

/// The index of the first region from index `k` on that is at least
/// `len` bytes long, if any.
pub open spec fn first_fitting_from(mems: Seq<GuestMemory>, len: int, k: int) -> Option<int>
    decreases mems.len() - k,
{
    if k < 0 || k >= mems.len() {
        None
    } else if mems[k].size_spec() >= len {
        Some(k)
    } else {
        first_fitting_from(mems, len, k + 1)
    }
}

/// The index of the first region at least `len` bytes long, if any.
pub open spec fn first_fitting(mems: Seq<GuestMemory>, len: int) -> Option<int> {
    first_fitting_from(mems, len, 0)
}

/// A region found from index `k` on is a region from `k` on that holds
/// the address.
proof fn lemma_first_holding_found(mems: Seq<GuestMemory>, a: int, k: int)
    requires
        0 <= k,
    ensures
        first_holding_from(mems, a, k) matches Some(i) ==> k <= i < mems.len() && region_holds(mems[i], a),
    decreases mems.len() - k,
{
    if k < mems.len() && !region_holds(mems[k], a) {
        lemma_first_holding_found(mems, a, k + 1);
    }
}

/// A region found from index `k` on is a region from `k` on that is long
/// enough.
proof fn lemma_first_fitting_found(mems: Seq<GuestMemory>, len: int, k: int)
    requires
        0 <= k,
    ensures
        first_fitting_from(mems, len, k) matches Some(i) ==> k <= i < mems.len() && mems[i].size_spec() >= len,
    decreases mems.len() - k,
{
    if k < mems.len() && mems[k].size_spec() < len {
        lemma_first_fitting_found(mems, len, k + 1);
    }
}

/// Why a kernel image could not be placed.
#[derive(Debug, Clone, Copy, PartialEq, Eq, Structural)]
pub enum KernelLoadError {
    /// The fixed load address lies in no memory region.
    NotInRegion(GuestPhysAddr),
    /// No memory region is as long as the image.
    NoSuitableRegion,
}

/// Where a kernel image goes, as [`kernel_placement`] finds it.
pub open spec fn kernel_placement_spec(
    mems: Seq<GuestMemory>,
    kernel_gpa: Option<GuestPhysAddr>,
    kernel_len: int,
) -> Result<(int, GuestPhysAddr), KernelLoadError> {
    match kernel_gpa {
        Some(g) => match first_holding(mems, g.0 as int) {
            Some(i) => Ok((i, g)),
            None => Err(KernelLoadError::NotInRegion(g)),
        },
        None => match first_fitting(mems, kernel_len) {
            Some(i) => Ok((i, GuestPhysAddr((mems[i].gpa_spec() + KERNEL_DEFAULT_OFFSET) as usize))),
            None => Err(KernelLoadError::NoSuitableRegion),
        },
    }
}

/// Where a kernel image of `kernel_len` bytes goes: at its fixed address,
/// in the first region that holds it; without one, 2 MiB into the first
/// region at least as long as the image. The result is the index of the
/// region and the load address.
pub fn kernel_placement(
    memories: &[GuestMemory],
    kernel_gpa: Option<GuestPhysAddr>,
    kernel_len: usize,
) -> (r: Result<(usize, GuestPhysAddr), KernelLoadError>)
    requires
        kernel_gpa is None && first_fitting(memories@, kernel_len as int) is Some ==> memories@[first_fitting(
            memories@,
            kernel_len as int,
        )->0].gpa_spec() + KERNEL_DEFAULT_OFFSET <= usize::MAX,
    ensures
        match kernel_placement_spec(memories@, kernel_gpa, kernel_len as int) {
            Ok((i, g)) => r == Ok::<(usize, GuestPhysAddr), KernelLoadError>((i as usize, g)),
            Err(e) => r == Err::<(usize, GuestPhysAddr), KernelLoadError>(e),
        },
{
    let ghost mems = memories@;
    match kernel_gpa {
        Some(gpa) => {
            let mut i: usize = 0;
            while i < memories.len()
                invariant
                    i <= mems.len(),
                    mems == memories@,
                    kernel_gpa == Some(gpa),
                    first_holding(mems, gpa.0 as int) == first_holding_from(mems, gpa.0 as int, i as int),
                decreases mems.len() - i,
            {
                let region = &memories[i];
                proof {
                    use_type_invariant(region);
                }
                if region.gpa.0 <= gpa.0 && gpa.0 < region.gpa.0 + region.size {
                    return Ok((i, gpa));
                }
                i = i + 1;
            }
            Err(KernelLoadError::NotInRegion(gpa))
        },
        None => {
            let mut i: usize = 0;
            while i < memories.len()
                invariant
                    i <= mems.len(),
                    mems == memories@,
                    kernel_gpa is None,
                    first_fitting(mems, kernel_len as int) == first_fitting_from(mems, kernel_len as int, i as int),
                    first_fitting(mems, kernel_len as int) is Some ==> mems[first_fitting(
                        mems,
                        kernel_len as int,
                    )->0].gpa_spec() + KERNEL_DEFAULT_OFFSET <= usize::MAX,
                decreases mems.len() - i,
            {
                let region = &memories[i];
                if region.size >= kernel_len {
                    return Ok((i, GuestPhysAddr(region.gpa.0 + KERNEL_DEFAULT_OFFSET)));
                }
                i = i + 1;
            }
            Err(KernelLoadError::NoSuitableRegion)
        },
    }
}

/// Where a device tree of `dtb_len` bytes goes: as high as it fits in the
/// first 512 MiB of the first memory region, rounded down to 4 KiB.
pub fn dtb_load_gpa(first: &GuestMemory, dtb_len: usize) -> (r: GuestPhysAddr)
    requires
        dtb_len <= first.gpa_spec() + (if first.size_spec() < DTB_WINDOW { first.size_spec() as int } else { DTB_WINDOW as int }),
    ensures
        r.0 == spec_align_down_4k(
            first.gpa_spec() + (if first.size_spec() < DTB_WINDOW { first.size_spec() as int } else { DTB_WINDOW as int }) - dtb_len,
        ),
        r.0 % 4096 == 0,
        r.0 + dtb_len <= first.gpa_spec() + (if first.size_spec() < DTB_WINDOW { first.size_spec() as int } else { DTB_WINDOW as int }),
{
    proof {
        use_type_invariant(first);
    }
    let window = if first.size < DTB_WINDOW { first.size } else { DTB_WINDOW };
    let end = first.gpa.0 + window;
    GuestPhysAddr(align_down_4k(end - dtb_len))
}

/// The size of an inter-VM communication channel asked for with
/// `expected_size` bytes: rounded up to 4 KiB.
pub fn ivc_channel_size(expected_size: usize) -> (r: usize)
    requires
        expected_size + 4096 <= usize::MAX,
    ensures
        r == crate::addr::spec_align_up_4k(expected_size as int),
{
    crate::addr::align_up_4k(expected_size)
}

/// How many bytes from the guest physical address `addr` on can be
/// reached through one translation: up to the end of its 4 KiB page.
pub fn page_limit(addr: usize) -> (r: usize)
    ensures
        r == 0x1000 - addr % 0x1000,
        1 <= r <= 0x1000,
{
    let offset = addr & 0xFFF;
    assert(offset == addr % 0x1000) by (bit_vector)
        requires
            offset == addr & 0xFFF,
    ;
    0x1000 - offset
}

/// What a guest region is used for.
#[derive(Debug, Clone, Copy, PartialEq, Eq, Structural)]
pub enum VmRegionKind {
    /// Host device memory passed through to the guest.
    Passthrough,
    /// Memory of the guest.
    Memory,
}

/// A region of the guest physical address space and its use.
#[derive(Debug, Clone, Copy)]
pub struct VmRegion {
    pub gpa: GuestPhysAddr,
    pub size: usize,
    pub kind: VmRegionKind,
}

impl VmRegion {
    /// The first address of the region and the first address after it.
    pub fn range(&self) -> (r: core::ops::Range<GuestPhysAddr>)
        requires
            self.gpa.0 + self.size <= usize::MAX,
        ensures
            r.start == self.gpa,
            r.end.0 == self.gpa.0 + self.size,
    {
        core::ops::Range { start: self.gpa, end: GuestPhysAddr(self.gpa.0 + self.size) }
    }

    /// What the region is used for.
    pub fn kind(&self) -> (r: VmRegionKind)
        ensures
            r == self.kind,
    {
        self.kind
    }

    /// Whether another region may be laid over this one: only passed
    /// through device memory may.
    pub fn overwritable(&self) -> (r: bool)
        ensures
            r == (self.kind == VmRegionKind::Passthrough),
    {
        match self.kind {
            VmRegionKind::Passthrough => true,
            VmRegionKind::Memory => false,
        }
    }

    /// A region of the same use over `range`.
    pub fn clone_with_range(&self, range: core::ops::Range<GuestPhysAddr>) -> (r: VmRegion)
        requires
            range.start.0 <= range.end.0,
        ensures
            r.gpa == range.start,
            r.size == range.end.0 - range.start.0,
            r.kind == self.kind,
    {
        VmRegion { gpa: range.start, size: range.end.0 - range.start.0, kind: self.kind }
    }
}

impl Default for VmRegion {
    fn default() -> (r: Self)
        ensures
            r.gpa.0 == 0 && r.size == 0 && r.kind == VmRegionKind::Memory,
    {
        VmRegion { gpa: GuestPhysAddr(0), size: 0, kind: VmRegionKind::Memory }
    }
}

impl ranges_ext::RangeOp for VmRegion {
    type Kind = VmRegionKind;

    type Type = GuestPhysAddr;

    fn range(&self) -> core::ops::Range<GuestPhysAddr> {
        core::ops::Range { start: self.gpa, end: GuestPhysAddr(self.gpa.0.saturating_add(self.size)) }
    }

    fn kind(&self) -> VmRegionKind {
        self.kind
    }

    fn overwritable(&self, _other: &Self) -> bool {
        match self.kind {
            VmRegionKind::Passthrough => true,
            VmRegionKind::Memory => false,
        }
    }

    fn clone_with_range(&self, range: core::ops::Range<GuestPhysAddr>) -> Self {
        VmRegion { gpa: range.start, size: range.end.0.saturating_sub(range.start.0), kind: self.kind }
    }
}

/// The first address after a region, as the region set computes it: the
/// sum of start and size, kept at `usize::MAX`.
pub open spec fn region_end(r: VmRegion) -> int {
    if r.gpa.0 + r.size <= usize::MAX {
        r.gpa.0 + r.size
    } else {
        usize::MAX as int
    }
}

/// Whether the new region `new` overlaps the recorded region `existing`.
pub open spec fn regions_overlap(existing: VmRegion, new: VmRegion) -> bool {
    new.gpa.0 < region_end(existing) && region_end(new) > existing.gpa.0
}

/// Whether a recorded region refuses a new one: they overlap, and the
/// recorded one may neither be laid over (it is not passed through) nor
/// merged with the new one (its use differs).
pub open spec fn region_conflicts(existing: VmRegion, new: VmRegion) -> bool {
    regions_overlap(existing, new) && existing.kind != VmRegionKind::Passthrough && existing.kind != new.kind
}

/// The regions a region set holds once `item` is added to `map`: the
/// parts of the regions it overlaps that it does not cover, `item`, and
/// regions of one use that touch merged into one.
pub uninterp spec fn merged_regions(map: Seq<VmRegion>, item: VmRegion) -> Seq<VmRegion>;

/// Why a region set refused a region.
#[derive(Debug, Clone, Copy)]
pub enum RegionMapError {
    /// The region `new` overlaps the recorded region `existing`, which may
    /// neither be laid over nor merged with it.
    Conflict { new: VmRegion, existing: VmRegion },
    /// The set has no room left.
    Capacity,
}

/// Adds `item` to the region set `map` with `ranges_ext::VecOp::merge_add`.
/// Its source checks every recorded region in order: one that overlaps
/// `item` and is neither overwritable nor of the same use stops the call
/// with a conflict naming `item` and that region; the others are cut back
/// or dropped where `item` covers them. `item` is then pushed and touching
/// regions of one use are merged. A `Vec` never runs out of room. Every
/// region in the set afterwards, refused or not, is `item`, a recorded
/// region, or a part or merge of them, and has the use of one of them.
/// What the set holds after a success is named, not stated.
#[verifier::external_body]
fn region_map_add(map: &mut Vec<VmRegion>, item: VmRegion) -> (r: Result<(), RegionMapError>)
    ensures
        r is Err <==> exists|i: int| 0 <= i < old(map)@.len() && region_conflicts(#[trigger] old(map)@[i], item),
        r is Ok ==> final(map)@ == merged_regions(old(map)@, item),
        r matches Err(e) ==> exists|k: int|
            0 <= k < old(map)@.len() && region_conflicts(old(map)@[k], item) && (forall|j: int|
                0 <= j < k ==> !region_conflicts(#[trigger] old(map)@[j], item)) && e == (RegionMapError::Conflict {
                new: item,
                existing: old(map)@[k],
            }),
        forall|j: int|
            0 <= j < final(map)@.len() ==> (#[trigger] final(map)@[j]).kind == item.kind || exists|i: int|
                0 <= i < old(map)@.len() && old(map)@[i].kind == final(map)@[j].kind,
{
    match ranges_ext::VecOp::merge_add(map, item) {
        Ok(()) => Ok(()),
        Err(ranges_ext::RangeError::Conflict { new, existing }) => Err(RegionMapError::Conflict { new, existing }),
        Err(ranges_ext::RangeError::Capacity) => Err(RegionMapError::Capacity),
    }
}

/// The guest address and the value to write to make interrupt `irq`
/// pending in the platform-level interrupt controller at 0x0c00_0000:
/// one bit per source in the words from 0x1000 on.
pub fn plic_pending_write(irq: u32) -> (r: (usize, usize))
    ensures
        r.0 == 0x0c00_0000 + 0x1000 + (irq / 32) * 4,
        r.1 == pow2((irq % 32) as nat),
{
    let word_index = (irq / 32) as usize;
    let bit_index = (irq % 32) as usize;
    let addr = 0x0c00_0000usize + 0x1000 + word_index * 4;
    proof {
        vstd::bits::lemma_usize_pow2_no_overflow(bit_index as nat);
        vstd::bits::lemma_usize_shl_is_mul(1, bit_index);
    }
    let val = 1usize << bit_index;
    (addr, val)
}

} // verus!

verus! {

/// The guest physical memory of a machine: its memory regions in the order
/// added, where its kernel starts and which region holds it.
pub struct VmAddrSpace {
    kernel_entry: GuestPhysAddr,
    kernel_memory_index: usize,
    memories: Vec<GuestMemory>,
    addr_space_end: GuestPhysAddr,
    region_map: Vec<VmRegion>,
}

/// The guest and host start of the region that memory of kind `kind`
/// takes, given the host address of its first page: memory allocated for
/// the guest and host memory are mapped at their host address; other
/// memory at its configured guest address.
pub open spec fn placed_at(kind: crate::config::MemoryKind, backing: HostPhysAddr) -> (usize, usize) {
    match kind {
        crate::config::MemoryKind::Identical { .. } => (backing.0, backing.0),
        crate::config::MemoryKind::Passthrough { hpa, .. } => (hpa.0, hpa.0),
        crate::config::MemoryKind::Vmem { gpa, .. } => (gpa.0, backing.0),
    }
}

impl VmAddrSpace {
    /// The region set holds memory of the guest only.
    #[verifier::type_invariant]
    spec fn inv(self) -> bool {
        forall|i: int| 0 <= i < self.region_map@.len() ==> (#[trigger] self.region_map@[i]).kind
            == VmRegionKind::Memory
    }

    /// The regions, in the order added.
    pub closed spec fn memories_spec(&self) -> Seq<GuestMemory> {
        self.memories@
    }

    /// The guest regions recorded in the region set.
    pub closed spec fn region_map_spec(&self) -> Seq<VmRegion> {
        self.region_map@
    }

    /// Where the kernel starts.
    pub closed spec fn kernel_entry_spec(&self) -> GuestPhysAddr {
        self.kernel_entry
    }

    /// The index of the region that holds the kernel.
    pub closed spec fn kernel_index_spec(&self) -> usize {
        self.kernel_memory_index
    }

    /// The first address after the address space.
    pub closed spec fn end_spec(&self) -> GuestPhysAddr {
        self.addr_space_end
    }

    /// An address space over `vm_addr_space`, without memory; returns it
    /// with the length of the space.
    pub fn new(vm_addr_space: core::ops::Range<GuestPhysAddr>) -> (r: (Self, usize))
        requires
            vm_addr_space.start.0 <= vm_addr_space.end.0,
        ensures
            r.0.memories_spec() == Seq::<GuestMemory>::empty(),
            r.0.kernel_entry_spec() == GuestPhysAddr(0),
            r.0.kernel_index_spec() == 0,
            r.0.end_spec() == vm_addr_space.end,
            r.0.region_map_spec() == Seq::<VmRegion>::empty(),
            r.1 == vm_addr_space.end.0 - vm_addr_space.start.0,
    {
        let size = vm_addr_space.end.0 - vm_addr_space.start.0;
        let space = VmAddrSpace {
            kernel_entry: GuestPhysAddr(0),
            kernel_memory_index: 0,
            memories: Vec::new(),
            addr_space_end: vm_addr_space.end,
            region_map: Vec::new(),
        };
        (space, size)
    }

    /// Where the kernel starts.
    pub fn kernel_entry(&self) -> (r: GuestPhysAddr)
        ensures
            r == self.kernel_entry_spec(),
    {
        self.kernel_entry
    }

    /// The regions, in the order added.
    pub fn memories(&self) -> (r: &[GuestMemory])
        ensures
            r@ == self.memories_spec(),
    {
        self.memories.as_slice()
    }

    /// The guest regions recorded in the region set.
    pub fn regions(&self) -> (r: &[VmRegion])
        ensures
            r@ == self.region_map_spec(),
    {
        self.region_map.as_slice()
    }

    /// Adds the region of memory of kind `kind` whose first page is backed
    /// at `backing` (the host address of the memory allocated for it, or
    /// that a region allocated on demand was given) and records it in the
    /// region set as guest memory; returns how many bytes to map for it,
    /// its size rounded up to 4 KiB. The set holds guest memory only, and
    /// regions of one use merge where they overlap, so it never refuses.
    pub fn new_memory(&mut self, kind: &crate::config::MemoryKind, backing: HostPhysAddr) -> (r: usize)
        requires
            placed_at(*kind, backing).0 + crate::config::memory_kind_size(*kind) <= usize::MAX,
            crate::config::memory_kind_size(*kind) + 4096 <= usize::MAX,
        ensures
            r == crate::addr::spec_align_up_4k(crate::config::memory_kind_size(*kind) as int),
            final(self).memories_spec().len() == old(self).memories_spec().len() + 1,
            final(self).memories_spec().drop_last() == old(self).memories_spec(),
            final(self).memories_spec().last().gpa_spec() == placed_at(*kind, backing).0,
            final(self).memories_spec().last().hpa_spec() == placed_at(*kind, backing).1,
            final(self).memories_spec().last().size_spec() == crate::config::memory_kind_size(*kind),
            final(self).region_map_spec() == merged_regions(
                old(self).region_map_spec(),
                VmRegion {
                    gpa: GuestPhysAddr(placed_at(*kind, backing).0),
                    size: crate::config::memory_kind_size(*kind) as usize,
                    kind: VmRegionKind::Memory,
                },
            ),
            final(self).kernel_entry_spec() == old(self).kernel_entry_spec(),
            final(self).kernel_index_spec() == old(self).kernel_index_spec(),
            final(self).end_spec() == old(self).end_spec(),
    {
        proof {
            use_type_invariant(&*self);
        }
        let (gpa, hpa, size) = match kind {
            crate::config::MemoryKind::Identical { size } => (GuestPhysAddr(backing.0), backing, *size),
            crate::config::MemoryKind::Passthrough { hpa, size } => (GuestPhysAddr(hpa.0), *hpa, *size),
            crate::config::MemoryKind::Vmem { gpa, size } => (*gpa, backing, *size),
        };
        let mut mems: Vec<GuestMemory> = Vec::new();
        core::mem::swap(&mut mems, &mut self.memories);
        let ghost before = mems@;
        mems.push(GuestMemory::new(gpa, hpa, size));
        assert(mems@.drop_last() =~= before);
        self.memories = mems;
        let region = VmRegion { gpa, size, kind: VmRegionKind::Memory };
        let mut map: Vec<VmRegion> = Vec::new();
        core::mem::swap(&mut map, &mut self.region_map);
        let ghost old_map = map@;
        let res = region_map_add(&mut map, region);
        proof {
            if res is Err {
                let i = choose|i: int| 0 <= i < old_map.len() && region_conflicts(#[trigger] old_map[i], region);
                assert(old_map[i].kind == VmRegionKind::Memory);
            }
            assert forall|j: int| 0 <= j < map@.len() implies (#[trigger] map@[j]).kind == VmRegionKind::Memory by {
                if map@[j].kind != region.kind {
                    let i = choose|i: int| 0 <= i < old_map.len() && old_map[i].kind == map@[j].kind;
                    assert(old_map[i].kind == VmRegionKind::Memory);
                }
            }
        }
        self.region_map = map;
        crate::addr::align_up_4k(size)
    }

    /// Places the kernel image of `config`: records where it starts and
    /// which region holds it, and returns that region's index and the
    /// offset of the image in it, for the image to be copied there.
    pub fn load_kernel_image(&mut self, config: &crate::config::AxVMConfig) -> (r: Result<
        (usize, usize),
        KernelLoadError,
    >)
        requires
            config.image_config.kernel.gpa is None && first_fitting(
                old(self).memories_spec(),
                config.image_config.kernel.data@.len() as int,
            ) is Some ==> old(self).memories_spec()[first_fitting(
                old(self).memories_spec(),
                config.image_config.kernel.data@.len() as int,
            )->0].gpa_spec() + KERNEL_DEFAULT_OFFSET <= usize::MAX,
        ensures
            final(self).memories_spec() == old(self).memories_spec(),
            final(self).end_spec() == old(self).end_spec(),
            final(self).region_map_spec() == old(self).region_map_spec(),
            match kernel_placement_spec(
                old(self).memories_spec(),
                config.image_config.kernel.gpa,
                config.image_config.kernel.data@.len() as int,
            ) {
                Ok((i, g)) => {
                    &&& r == Ok::<(usize, usize), KernelLoadError>(
                        (i as usize, (g.0 - old(self).memories_spec()[i].gpa_spec()) as usize),
                    )
                    &&& final(self).kernel_entry_spec() == g
                    &&& final(self).kernel_index_spec() == i
                },
                Err(e) => {
                    &&& r == Err::<(usize, usize), KernelLoadError>(e)
                    &&& final(self).kernel_entry_spec() == old(self).kernel_entry_spec()
                    &&& final(self).kernel_index_spec() == old(self).kernel_index_spec()
                },
            },
    {
        proof {
            use_type_invariant(&*self);
        }
        let image = &config.image_config.kernel;
        match kernel_placement(self.memories.as_slice(), image.gpa, image.data.len()) {
            Ok((idx, gpa)) => {
                proof {
                    lemma_placement_in_region(self.memories@, image.gpa, image.data@.len() as int);
                    let sp = kernel_placement_spec(self.memories@, image.gpa, image.data@.len() as int);
                    assert(sp is Ok);
                    let (i, g) = sp->Ok_0;
                    assert(0 <= i < self.memories@.len());
                    assert(self.memories@.len() <= usize::MAX) by {
                        assert(self.memories@.len() == self.memories.len());
                    }
                    assert(idx as int == i);
                    assert(gpa == g);
                }
                let offset = gpa.0 - self.memories[idx].gpa.0;
                self.kernel_memory_index = idx;
                self.kernel_entry = gpa;
                Ok((idx, offset))
            },
            Err(e) => Err(e),
        }
    }
}

/// A placed kernel starts in its region, at or after the region's start.
proof fn lemma_placement_in_region(mems: Seq<GuestMemory>, kernel_gpa: Option<GuestPhysAddr>, kernel_len: int)
    requires
        kernel_gpa is None && first_fitting(mems, kernel_len) is Some ==> mems[first_fitting(
            mems,
            kernel_len,
        )->0].gpa_spec() + KERNEL_DEFAULT_OFFSET <= usize::MAX,
    ensures
        kernel_placement_spec(mems, kernel_gpa, kernel_len) matches Ok((i, g)) ==> 0 <= i < mems.len()
            && mems[i].gpa_spec() <= g.0,
{
    match kernel_gpa {
        Some(g) => lemma_first_holding_found(mems, g.0 as int, 0),
        None => lemma_first_fitting_found(mems, kernel_len, 0),
    }
}

} // verus!

verus! {

/// Whether an access of `len` bytes at `addr` lies wholly in the region.
pub open spec fn access_within(m: GuestMemory, addr: int, len: int) -> bool {
    m.gpa_spec() <= addr && addr + len <= m.gpa_spec() + m.size_spec()
}

/// The index of the first region from index `k` on that an access of
/// `len` bytes at `addr` lies wholly in, if any.
pub open spec fn first_within_from(regions: Seq<GuestMemory>, addr: int, len: int, k: int) -> Option<int>
    decreases regions.len() - k,
{
    if k < 0 || k >= regions.len() {
        None
    } else if access_within(regions[k], addr, len) {
        Some(k)
    } else {
        first_within_from(regions, addr, len, k + 1)
    }
}

/// The regions of guest memory that emulated devices are backed by.
pub struct MmioRegions {
    regions: Vec<GuestMemory>,
}

impl MmioRegions {
    /// The regions, in the order added.
    pub closed spec fn regions_spec(&self) -> Seq<GuestMemory> {
        self.regions@
    }

    /// No regions.
    pub fn new() -> (r: Self)
        ensures
            r.regions_spec() == Seq::<GuestMemory>::empty(),
    {
        MmioRegions { regions: Vec::new() }
    }

    /// Adds `region` after the others.
    pub fn add_region(&mut self, region: GuestMemory)
        ensures
            final(self).regions_spec() == old(self).regions_spec().push(region),
    {
        self.regions.push(region);
    }

    /// Where an access of width `width` at `addr` goes: the first region
    /// that holds all its bytes, and the offset of the access in it; none
    /// when no region does. A device read or write at that offset of the
    /// region's host memory serves the access.
    pub fn find_access(&self, addr: GuestPhysAddr, width: crate::vm::exit::AccessWidth) -> (r: Option<
        (usize, usize),
    >)
        ensures
            match first_within_from(
                self.regions_spec(),
                addr.0 as int,
                crate::vm::exit::width_bits(width) as int / 8,
                0,
            ) {
                Some(i) => r == Some(
                    (i as usize, (addr.0 - self.regions_spec()[i].gpa_spec()) as usize),
                ),
                None => r is None,
            },
    {
        let len = width.size();
        let ghost rs = self.regions@;
        let mut i: usize = 0;
        while i < self.regions.len()
            invariant
                i <= rs.len(),
                rs == self.regions@,
                len as int == crate::vm::exit::width_bits(width) as int / 8,
                first_within_from(rs, addr.0 as int, len as int, 0) == first_within_from(
                    rs,
                    addr.0 as int,
                    len as int,
                    i as int,
                ),
            decreases rs.len() - i,
        {
            let region = &self.regions[i];
            proof {
                use_type_invariant(region);
            }
            if addr.0 >= region.gpa.0 && addr.0 as u128 + len as u128 <= region.gpa.0 as u128
                + region.size as u128 {
                return Some((i, addr.0 - region.gpa.0));
            }
            i = i + 1;
        }
        None
    }
}

} // verus!

verus! {

/// Why an object could not be read from or written to guest memory.
#[derive(Debug, Clone, Copy, PartialEq, Eq, Structural)]
pub enum GuestAccessError {
    /// The address is not aligned for the object.
    Unaligned,
    /// The address does not translate to host memory.
    TranslationFailed,
    /// The translated buffers hold fewer bytes than the object.
    InsufficientData,
}

/// Refuses an address that is not a multiple of the object's alignment.
pub fn check_guest_alignment(gpa: GuestPhysAddr, align: usize) -> (r: Result<(), GuestAccessError>)
    requires
        align > 0,
    ensures
        gpa.0 % align == 0 <==> r is Ok,
        gpa.0 % align != 0 ==> r == Err::<(), GuestAccessError>(GuestAccessError::Unaligned),
{
    if gpa.0 % align != 0 {
        Err(GuestAccessError::Unaligned)
    } else {
        Ok(())
    }
}

/// How to gather an object of `size` bytes from the host buffers that a
/// guest address translated to, of lengths `chunk_lens`: the first `size`
/// bytes of the buffers in order; refused when they hold fewer.
pub fn guest_read_plan(chunk_lens: &[usize], size: usize) -> (r: Result<Vec<CopyStep>, GuestAccessError>)
    requires
        lens_sum(chunk_lens@, chunk_lens@.len() as int) <= usize::MAX,
    ensures
        lens_sum(chunk_lens@, chunk_lens@.len() as int) < size ==> r == Err::<Vec<CopyStep>, GuestAccessError>(
            GuestAccessError::InsufficientData,
        ),
        lens_sum(chunk_lens@, chunk_lens@.len() as int) >= size ==> r is Ok && valid_plan(r->Ok_0@, chunk_lens@, 0)
            && steps_len(r->Ok_0@, r->Ok_0@.len() as int) == size,
{
    let plan = plan_copy(chunk_lens, 0, size);
    let mut total: usize = 0;
    let mut i: usize = 0;
    while i < chunk_lens.len()
        invariant
            i <= chunk_lens@.len(),
            total == lens_sum(chunk_lens@, i as int),
            lens_sum(chunk_lens@, chunk_lens@.len() as int) <= usize::MAX,
        decreases chunk_lens@.len() - i,
    {
        proof {
            lemma_lens_sum_monotone(chunk_lens@, i + 1, chunk_lens@.len() as int);
        }
        total = total + chunk_lens[i];
        i = i + 1;
    }
    if total < size {
        Err(GuestAccessError::InsufficientData)
    } else {
        Ok(plan)
    }
}

/// How to scatter an object of `size` bytes over the host buffers that a
/// guest address translated to, of lengths `chunk_lens`, which hold no more
/// than the object: each buffer gets the next bytes of the object.
pub fn guest_write_plan(chunk_lens: &[usize], size: usize) -> (r: Vec<CopyStep>)
    requires
        lens_sum(chunk_lens@, chunk_lens@.len() as int) <= size,
    ensures
        valid_plan(r@, chunk_lens@, 0),
        steps_len(r@, r@.len() as int) == lens_sum(chunk_lens@, chunk_lens@.len() as int),
{
    proof {
        lemma_lens_sum_monotone(chunk_lens@, 0, chunk_lens@.len() as int);
    }
    plan_copy(chunk_lens, 0, size)
}

} // verus!

verus! {

/// The memory that holds a device tree given with the configuration: at
/// its fixed address if it has one, else wherever the host allocates it.
pub fn dtb_memory_kind(gpa: Option<GuestPhysAddr>, len: usize) -> (r: crate::config::MemoryKind)
    ensures
        match gpa {
            Some(g) => r == (crate::config::MemoryKind::Vmem { gpa: g, size: len }),
            None => r == (crate::config::MemoryKind::Identical { size: len }),
        },
{
    match gpa {
        Some(g) => crate::config::MemoryKind::Vmem { gpa: g, size: len },
        None => crate::config::MemoryKind::Identical { size: len },
    }
}

/// A region of guest memory and the host memory behind it: where it is in
/// guest physical memory and in the host's address space, its size, and
/// whether the machine owns the host memory.
#[derive(Debug, Clone, Copy, PartialEq, Eq, Structural)]
pub struct Region {
    pub gpa: GuestPhysAddr,
    pub hva: crate::addr::HostVirtAddr,
    pub size: usize,
    pub own: bool,
}

impl Region {
    /// The region for memory of kind `kind` backed at host virtual address
    /// `hva`, whose host physical address is `hpa`: memory allocated for
    /// the guest is owned and lies at its host physical address (or at its
    /// configured guest address); host memory passed through is not owned
    /// and lies at its host virtual address.
    pub fn new(kind: &crate::config::MemoryKind, hva: crate::addr::HostVirtAddr, hpa: HostPhysAddr) -> (r: Region)
        ensures
            r.hva == hva,
            r.size == crate::config::memory_kind_size(*kind),
            match *kind {
                crate::config::MemoryKind::Identical { .. } => r.gpa.0 == hpa.0 && r.own,
                crate::config::MemoryKind::Passthrough { .. } => r.gpa.0 == hva.0 && !r.own,
                crate::config::MemoryKind::Vmem { gpa, .. } => r.gpa == gpa && r.own,
            },
    {
        match kind {
            crate::config::MemoryKind::Identical { size } => Region {
                gpa: GuestPhysAddr(hpa.0),
                hva,
                size: *size,
                own: true,
            },
            crate::config::MemoryKind::Passthrough { size, .. } => Region {
                gpa: GuestPhysAddr(hva.0),
                hva,
                size: *size,
                own: false,
            },
            crate::config::MemoryKind::Vmem { gpa, size } => Region { gpa: *gpa, hva, size: *size, own: true },
        }
    }
}

} // verus!
