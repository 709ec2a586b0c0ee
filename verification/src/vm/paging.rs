//! How many levels the stage-2 page table of a machine has and how much
//! guest physical memory it covers, from what the host CPUs support and
//! what the configuration needs.
use vstd::prelude::*;

use crate::config::{AxVMConfig, MemoryKind};
use crate::percpu::HCpu;

verus! {

/// The lesser of two integers.
pub open spec fn min_int(a: int, b: int) -> int {
    if a < b {
        a
    } else {
        b
    }
}

/// The greater of two integers.
pub open spec fn max_int(a: int, b: int) -> int {
    if a < b {
        b
    } else {
        a
    }
}

/// The page table depth, physical address range end and address width
/// that a machine's address space is built with.
#[derive(Debug, Clone, Copy, PartialEq, Eq, Structural)]
pub struct AddrspaceInfo {
    pub pt_levels: usize,
    pub pa_max: usize,
    pub pa_bits: usize,
}

/// The capabilities that `levels`, `pa_max` and `pa_bits` and every CPU of
/// `cpus` share: the least of each.
pub open spec fn shared_limits(cpus: Seq<HCpu>, levels: int, pa_max: int, pa_bits: int) -> (
    int,
    int,
    int,
)
    decreases cpus.len(),
{
    if cpus.len() == 0 {
        (levels, pa_max, pa_bits)
    } else {
        let (l, p, b) = shared_limits(cpus.drop_last(), levels, pa_max, pa_bits);
        let c = cpus.last();
        (
            min_int(l, c.max_guest_page_table_levels as int),
            min_int(p, c.pa_range_end as int),
            min_int(b, c.pa_bits as int),
        )
    }
}

/// The address space that every CPU of `cpus` supports: at most four
/// levels, and the least depth, range end and address width of the CPUs;
/// with three levels the range ends at 512 GiB at most.
pub fn calculate_addrspace_info(cpus: &[HCpu]) -> (r: AddrspaceInfo)
    ensures
        ({
            let (l, p, b) = shared_limits(cpus@, 4, usize::MAX as int, usize::MAX as int);
            &&& r.pt_levels == l
            &&& r.pa_bits == b
            &&& r.pa_max == (if l == 3 { min_int(p, 0x80_0000_0000) } else { p })
        }),
{
    let mut info = AddrspaceInfo { pt_levels: 4, pa_max: usize::MAX, pa_bits: usize::MAX };
    let mut i: usize = 0;
    while i < cpus.len()
        invariant
            i <= cpus@.len(),
            (info.pt_levels as int, info.pa_max as int, info.pa_bits as int) == shared_limits(
                cpus@.subrange(0, i as int),
                4,
                usize::MAX as int,
                usize::MAX as int,
            ),
        decreases cpus@.len() - i,
    {
        let cpu = &cpus[i];
        proof {
            assert(cpus@.subrange(0, i + 1).drop_last() =~= cpus@.subrange(0, i as int));
        }
        if cpu.max_guest_page_table_levels < info.pt_levels {
            info.pt_levels = cpu.max_guest_page_table_levels;
        }
        if cpu.pa_range_end < info.pa_max {
            info.pa_max = cpu.pa_range_end;
        }
        if cpu.pa_bits < info.pa_bits {
            info.pa_bits = cpu.pa_bits;
        }
        i = i + 1;
    }
    proof {
        assert(cpus@.subrange(0, i as int) =~= cpus@);
    }
    if info.pt_levels == 3 {
        if info.pa_max as u64 > 0x80_0000_0000u64 {
            assert(usize::MAX > 0x80_0000_0000);
            info.pa_max = 0x80_0000_0000u64 as usize;
        }
    }
    info
}

} // verus!

verus! {

/// The largest guest physical address range of the Sv39x4 mode: 2 TiB.
pub const SV39X4_MAX: u64 = 0x200_0000_0000;

/// The largest guest physical address range of the Sv48x4 mode: 1 PiB.
pub const SV48X4_MAX: u64 = 0x4_0000_0000_0000;

/// The largest guest physical address range of the Sv57x4 mode: 512 PiB.
pub const SV57X4_MAX: u64 = 0x800_0000_0000_0000;

/// The widest physical address of two-stage translation, in bits.
pub const MAX_PA_BITS: usize = 56;

/// The end of the widest physical address range of two-stage
/// translation: 2^56.
pub const MAX_PA: u64 = 0x100_0000_0000_0000;

/// The number of page table levels of the smallest guest translation mode
/// that covers a range ending at `pa_max`.
pub open spec fn mode_levels(pa_max: int) -> usize {
    if pa_max <= SV39X4_MAX {
        3
    } else if pa_max <= SV48X4_MAX {
        4
    } else {
        5
    }
}

/// The largest range of the smallest guest translation mode that covers a
/// range ending at `pa_max`.
pub open spec fn mode_max(pa_max: int) -> u64 {
    if pa_max <= SV39X4_MAX {
        SV39X4_MAX
    } else if pa_max <= SV48X4_MAX {
        SV48X4_MAX
    } else {
        SV57X4_MAX
    }
}

/// The name of the guest translation mode with `levels` page table levels.
pub open spec fn mode_name(levels: usize) -> Seq<char> {
    if levels == 3 {
        "Sv39x4"@
    } else if levels == 4 {
        "Sv48x4"@
    } else if levels == 5 {
        "Sv57x4"@
    } else {
        "Unknown"@
    }
}

/// The smallest guest translation mode that covers a range ending at
/// `pa_max`: its number of page table levels, its name and its largest
/// range. No mode covers a range beyond 2^59.
pub fn determine_page_table_config(pa_max: u64) -> (r: (usize, &'static str, u64))
    requires
        pa_max <= SV57X4_MAX,
    ensures
        r.0 == mode_levels(pa_max as int),
        r.1@ == mode_name(r.0),
        r.2 == mode_max(pa_max as int),
{
    if pa_max <= SV39X4_MAX {
        (3, "Sv39x4", SV39X4_MAX)
    } else if pa_max <= SV48X4_MAX {
        (4, "Sv48x4", SV48X4_MAX)
    } else {
        (5, "Sv57x4", SV57X4_MAX)
    }
}

/// The mode chosen for a range covers it, and a wider range never gets a
/// shallower page table.
pub proof fn lemma_mode_covers(pa_max: int, wider: int)
    requires
        pa_max <= wider,
    ensures
        pa_max <= SV57X4_MAX ==> pa_max <= mode_max(pa_max),
        3 <= mode_levels(pa_max) <= 5,
        mode_levels(pa_max) <= mode_levels(wider),
{
}

/// The name of the guest translation mode with `pt_levels` levels.
pub fn get_mode_name(pt_levels: usize) -> (r: &'static str)
    ensures
        r@ == mode_name(pt_levels),
{
    match pt_levels {
        3 => "Sv39x4",
        4 => "Sv48x4",
        5 => "Sv57x4",
        _ => "Unknown",
    }
}

/// The stage-2 page table depth, the end of the guest physical range and
/// the physical address width of a RISC-V machine.
#[derive(Debug, Clone, Copy, PartialEq, Eq, Structural)]
pub struct RiscvPaging {
    pub pt_levels: usize,
    pub pa_max: u64,
    pub pa_bits: usize,
}

/// What a RISC-V machine starts from: Sv39x4, three levels over 2 TiB
/// with 41-bit addresses.
pub fn default_riscv_paging() -> (r: RiscvPaging)
    ensures
        r == (RiscvPaging { pt_levels: 3, pa_max: SV39X4_MAX, pa_bits: 41 }),
{
    RiscvPaging { pt_levels: 3, pa_max: SV39X4_MAX, pa_bits: 41 }
}

/// The paging of `p` limited to what every CPU of `cpus` supports, the
/// range clamped to 2^56 (and the width to 56 bits when it is), and the
/// depth lowered to that of the smallest mode that covers the range.
pub open spec fn limited_to_cpus(p: RiscvPaging, cpus: Seq<HCpu>) -> RiscvPaging {
    let (l, pm, b) = shared_limits(cpus, p.pt_levels as int, p.pa_max as int, p.pa_bits as int);
    let pm2 = if pm > MAX_PA { MAX_PA as int } else { pm };
    let b2 = if pm > MAX_PA { min_int(b, MAX_PA_BITS as int) } else { b };
    RiscvPaging {
        pt_levels: min_int(l, mode_levels(pm2) as int) as usize,
        pa_max: pm2 as u64,
        pa_bits: b2 as usize,
    }
}

/// Limits `p` to what every CPU of `cpus` supports, as a RISC-V machine
/// does when it creates its vCPUs.
pub fn limit_to_cpus(p: RiscvPaging, cpus: &[HCpu]) -> (r: RiscvPaging)
    ensures
        r == limited_to_cpus(p, cpus@),
{
    let mut q = p;
    let mut i: usize = 0;
    while i < cpus.len()
        invariant
            i <= cpus@.len(),
            (q.pt_levels as int, q.pa_max as int, q.pa_bits as int) == shared_limits(
                cpus@.subrange(0, i as int),
                p.pt_levels as int,
                p.pa_max as int,
                p.pa_bits as int,
            ),
        decreases cpus@.len() - i,
    {
        let cpu = &cpus[i];
        proof {
            assert(cpus@.subrange(0, i + 1).drop_last() =~= cpus@.subrange(0, i as int));
        }
        if cpu.max_guest_page_table_levels < q.pt_levels {
            q.pt_levels = cpu.max_guest_page_table_levels;
        }
        if (cpu.pa_range_end as u64) < q.pa_max {
            q.pa_max = cpu.pa_range_end as u64;
        }
        if cpu.pa_bits < q.pa_bits {
            q.pa_bits = cpu.pa_bits;
        }
        i = i + 1;
    }
    proof {
        assert(cpus@.subrange(0, i as int) =~= cpus@);
    }
    if q.pa_max > MAX_PA {
        q.pa_max = MAX_PA;
        if MAX_PA_BITS < q.pa_bits {
            q.pa_bits = MAX_PA_BITS;
        }
    }
    let (recommended_levels, _mode_name, _max_addressable) = determine_page_table_config(q.pa_max);
    if recommended_levels < q.pt_levels {
        q.pt_levels = recommended_levels;
    }
    q
}

/// The end of the guest physical memory that a region needs: the size of
/// memory mapped where the host allocates it, else the end of the region.
pub open spec fn region_end(kind: MemoryKind) -> int {
    match kind {
        MemoryKind::Identical { size } => size as int,
        MemoryKind::Passthrough { hpa, size } => hpa.0 + size,
        MemoryKind::Vmem { gpa, size } => gpa.0 + size,
    }
}

/// The greatest region end of `regions`, 0 without regions.
pub open spec fn max_region_end(regions: Seq<MemoryKind>) -> int
    decreases regions.len(),
{
    if regions.len() == 0 {
        0
    } else {
        max_int(max_region_end(regions.drop_last()), region_end(regions.last()))
    }
}

/// The end of the kernel image: after its fixed address, or 2 MiB plus its
/// length into memory without one.
pub open spec fn kernel_end(config: AxVMConfig) -> int {
    match config.image_config.kernel.gpa {
        Some(g) => g.0 as int + config.image_config.kernel.data@.len(),
        None => 0x20_0000int + config.image_config.kernel.data@.len(),
    }
}

/// Whether `r` is the smallest power of two not below `x`.
pub open spec fn is_pow2_ceiling(x: int, r: int) -> bool {
    exists|k: nat|
        r == #[trigger] vstd::arithmetic::power2::pow2(k) && r >= x && (k == 0
            || vstd::arithmetic::power2::pow2((k - 1) as nat) < x)
}

/// The smallest power of two not below `x`.
pub fn next_power_of_two(x: u64) -> (r: u64)
    requires
        x <= 0x8000_0000_0000_0000,
    ensures
        is_pow2_ceiling(x as int, r as int),
{
    let mut p: u64 = 1;
    let ghost mut k: nat = 0;
    proof {
        vstd::arithmetic::power2::lemma2_to64();
    }
    while p < x
        invariant
            p as int == vstd::arithmetic::power2::pow2(k),
            p >= 1,
            k == 0 || vstd::arithmetic::power2::pow2((k - 1) as nat) < x,
            x <= 0x8000_0000_0000_0000,
        decreases if p < x { x - p } else { 0 },
    {
        proof {
            vstd::arithmetic::power2::lemma_pow2_unfold(k + 1);
        }
        p = p * 2;
        proof {
            k = k + 1;
        }
    }
    assert(is_pow2_ceiling(x as int, p as int)) by {
        assert(p as int == vstd::arithmetic::power2::pow2(k));
    }
    p
}

/// Why a machine's paging cannot cover what it needs.
#[derive(Debug, Clone, Copy, PartialEq, Eq, Structural)]
pub enum PagingError {
    /// The range needs a deeper page table than the one configured.
    TooFewLevels { needed: usize, configured: usize },
    /// The range goes beyond what the mode can address.
    RangeTooLarge { pa_max: u64, addressable: u64 },
}

/// The range that a machine needs: the greatest end of its memory regions
/// and kernel image, rounded up to a power of two.
pub fn required_pa_max(config: &AxVMConfig) -> (r: u64)
    requires
        forall|i: int| 0 <= i < config.memory_regions@.len() ==> region_end(
            #[trigger] config.memory_regions@[i],
        ) <= usize::MAX,
        kernel_end(*config) <= usize::MAX,
        max_int(max_region_end(config.memory_regions@), kernel_end(*config)) <= 0x8000_0000_0000_0000,
    ensures
        ({
            let need = max_int(max_region_end(config.memory_regions@), kernel_end(*config));
            &&& need == 0 ==> r == 0
            &&& need > 0 ==> is_pow2_ceiling(need, r as int)
        }),
{
    let regions = &config.memory_regions;
    let mut max_gpa: usize = 0;
    let mut i: usize = 0;
    while i < regions.len()
        invariant
            i <= regions@.len(),
            regions == &config.memory_regions,
            forall|j: int| 0 <= j < regions@.len() ==> region_end(#[trigger] regions@[j]) <= usize::MAX,
            max_gpa as int == max_region_end(regions@.subrange(0, i as int)),
        decreases regions@.len() - i,
    {
        proof {
            assert(regions@.subrange(0, i + 1).drop_last() =~= regions@.subrange(0, i as int));
            assert(region_end(regions@[i as int]) <= usize::MAX);
        }
        let end_addr = match &regions[i] {
            MemoryKind::Identical { size } => *size,
            MemoryKind::Passthrough { hpa, size } => hpa.0 + *size,
            MemoryKind::Vmem { gpa, size } => gpa.0 + *size,
        };
        if end_addr > max_gpa {
            max_gpa = end_addr;
        }
        i = i + 1;
    }
    proof {
        assert(regions@.subrange(0, i as int) =~= regions@);
    }
    let image = &config.image_config.kernel;
    let kernel_end_addr = match image.gpa {
        Some(gpa) => gpa.0 + image.data.len(),
        None => 0x20_0000 + image.data.len(),
    };
    let required = if max_gpa < kernel_end_addr { kernel_end_addr } else { max_gpa };
    if required > 0 {
        next_power_of_two(required as u64)
    } else {
        0
    }
}

/// The paging of `p` extended to a range ending at `required`, if it ends
/// beyond `p`'s, with the depth raised to the mode that covers it.
pub open spec fn extended(p: RiscvPaging, required: u64) -> RiscvPaging {
    if required > p.pa_max {
        RiscvPaging {
            pt_levels: if mode_levels(required as int) > p.pt_levels { mode_levels(required as int) } else { p.pt_levels },
            pa_max: required,
            pa_bits: p.pa_bits,
        }
    } else {
        p
    }
}

/// What extending `p` to cover `required` gives: the extended paging, or
/// the refusal when its depth does not reach the mode its range needs.
pub open spec fn paging_outcome(p: RiscvPaging, required: u64) -> Result<RiscvPaging, PagingError> {
    let q = extended(p, required);
    if q.pt_levels < mode_levels(q.pa_max as int) {
        Err(PagingError::TooFewLevels { needed: mode_levels(q.pa_max as int), configured: q.pt_levels })
    } else {
        Ok(q)
    }
}

/// Extends the range of `p` to cover `required`, raising the depth to the
/// mode that covers it; refused when the depth does not reach the mode
/// that the range needs.
pub fn extend_pa_range(p: RiscvPaging, required: u64) -> (r: Result<RiscvPaging, PagingError>)
    requires
        p.pa_max <= SV57X4_MAX,
        required <= SV57X4_MAX,
    ensures
        r == paging_outcome(p, required),
{
    let mut q = p;
    if required > q.pa_max {
        q.pa_max = required;
        let (new_pt_levels, _new_mode_name, _new_max_addressable) = determine_page_table_config(q.pa_max);
        if new_pt_levels > q.pt_levels {
            q.pt_levels = new_pt_levels;
        }
    }
    let (final_levels, _final_mode, max_addressable) = determine_page_table_config(q.pa_max);
    if q.pt_levels < final_levels {
        return Err(PagingError::TooFewLevels { needed: final_levels, configured: q.pt_levels });
    }
    if q.pa_max > max_addressable {
        return Err(PagingError::RangeTooLarge { pa_max: q.pa_max, addressable: max_addressable });
    }
    Ok(q)
}

} // verus!

verus! {

/// The capabilities shared by CPUs and nonnegative starting values are
/// nonnegative and at most the starting values.
proof fn lemma_shared_limits_nonneg(cpus: Seq<HCpu>, l: int, p: int, b: int)
    requires
        l >= 0,
        p >= 0,
        b >= 0,
    ensures
        0 <= shared_limits(cpus, l, p, b).0 <= l,
        0 <= shared_limits(cpus, l, p, b).1 <= p,
        0 <= shared_limits(cpus, l, p, b).2 <= b,
    decreases cpus.len(),
{
    if cpus.len() > 0 {
        lemma_shared_limits_nonneg(cpus.drop_last(), l, p, b);
    }
}

/// A power of two not above 2^59 that is the least one not below `need`
/// is at most 2^59.
proof fn lemma_ceiling_within(need: int, r: int)
    requires
        0 < need <= SV57X4_MAX,
        is_pow2_ceiling(need, r),
    ensures
        r <= SV57X4_MAX,
{
    let k = choose|k: nat|
        r == #[trigger] vstd::arithmetic::power2::pow2(k) && r >= need && (k == 0
            || vstd::arithmetic::power2::pow2((k - 1) as nat) < need);
    vstd::arithmetic::power2::lemma2_to64();
    assert(vstd::arithmetic::power2::pow2(59) == SV57X4_MAX) by {
        vstd::arithmetic::power2::lemma_pow2_adds(32, 27);
        vstd::arithmetic::power2::lemma2_to64_rest();
    }
    if k > 59 {
        if k - 1 > 59 {
            vstd::arithmetic::power2::lemma_pow2_strictly_increases(59, (k - 1) as nat);
        }
    } else if k < 59 {
        vstd::arithmetic::power2::lemma_pow2_strictly_increases(k, 59);
    }
}

/// The stage-2 paging of a RISC-V machine with configuration `config`
/// whose vCPUs run on `cpus`: Sv39x4 limited to what the CPUs support,
/// then extended to cover the memory regions and the kernel image.
pub fn riscv_paging_for(config: &AxVMConfig, cpus: &[HCpu]) -> (r: Result<RiscvPaging, PagingError>)
    requires
        forall|i: int| 0 <= i < config.memory_regions@.len() ==> region_end(
            #[trigger] config.memory_regions@[i],
        ) <= usize::MAX,
        kernel_end(*config) <= usize::MAX,
        max_int(max_region_end(config.memory_regions@), kernel_end(*config)) <= SV57X4_MAX,
    ensures
        ({
            let need = max_int(max_region_end(config.memory_regions@), kernel_end(*config));
            let p = limited_to_cpus(
                RiscvPaging { pt_levels: 3, pa_max: SV39X4_MAX, pa_bits: 41 },
                cpus@,
            );
            exists|required: u64|
                {
                    &&& (need == 0 ==> required == 0)
                    &&& (need > 0 ==> is_pow2_ceiling(need, required as int))
                    &&& r == #[trigger] paging_outcome(p, required)
                }
        }),
{
    let p = limit_to_cpus(default_riscv_paging(), cpus);
    let required = required_pa_max(config);
    proof {
        let need = max_int(max_region_end(config.memory_regions@), kernel_end(*config));
        if need > 0 {
            lemma_ceiling_within(need, required as int);
        }
        lemma_shared_limits_nonneg(cpus@, 3, SV39X4_MAX as int, 41);
    }
    let r = extend_pa_range(p, required);
    assert(r == paging_outcome(p, required));
    r
}

} // verus!

verus! {

/// The frame allocator that backs stage-2 page tables.
pub struct PagingHandlerImpl;

impl PagingHandlerImpl {
    /// The alignment, as a power of two of 4 KiB frames, of a frame block
    /// aligned to `align` bytes: `align` must be a multiple of 4 KiB whose
    /// number of frames is a power of two.
    pub fn align_frames_pow2(align: usize) -> (r: u32)
        requires
            align % 4096 == 0,
            exists|k: nat| #[trigger] vstd::arithmetic::power2::pow2(k) == align / 4096,
        ensures
            vstd::arithmetic::power2::pow2(r as nat) == align / 4096,
    {
        let frames = align / 4096;
        let ghost k = choose|k: nat| #[trigger] vstd::arithmetic::power2::pow2(k) == frames;
        let mut m = frames;
        let mut r: u32 = 0;
        proof {
            vstd::arithmetic::power2::lemma2_to64();
            vstd::arithmetic::power2::lemma_pow2_pos(k);
        }
        while m > 1
            invariant
                m >= 1,
                r <= 64,
                m as int * vstd::arithmetic::power2::pow2(r as nat) == frames as int,
                frames as int == vstd::arithmetic::power2::pow2(k),
                exists|j: nat| #[trigger] vstd::arithmetic::power2::pow2(j) == m,
            decreases m,
        {
            proof {
                vstd::arithmetic::power2::lemma2_to64();
                let j = choose|j: nat| #[trigger] vstd::arithmetic::power2::pow2(j) == m;
                if j == 0 {
                    assert(false);
                }
                vstd::arithmetic::power2::lemma_pow2_unfold(j);
                vstd::arithmetic::power2::lemma_pow2_unfold(r as nat + 1);
                assert(vstd::arithmetic::power2::pow2((j - 1) as nat) == m / 2);
                assert((m / 2) as int * vstd::arithmetic::power2::pow2(r as nat + 1) == frames as int) by (nonlinear_arith)
                    requires
                        m as int == 2 * vstd::arithmetic::power2::pow2((j - 1) as nat),
                        vstd::arithmetic::power2::pow2(r as nat + 1) == 2 * vstd::arithmetic::power2::pow2(r as nat),
                        m as int * vstd::arithmetic::power2::pow2(r as nat) == frames as int,
                        m / 2 == vstd::arithmetic::power2::pow2((j - 1) as nat),
                ;
                if r >= 64 {
                    if r > 64 {
                        vstd::arithmetic::power2::lemma_pow2_strictly_increases(64, r as nat);
                    }
                    assert(m as int * vstd::arithmetic::power2::pow2(r as nat) >= vstd::arithmetic::power2::pow2(r as nat)) by (nonlinear_arith)
                        requires
                            m >= 1,
                            vstd::arithmetic::power2::pow2(r as nat) >= 0,
                    ;
                    assert(false);
                }
            }
            m = m / 2;
            r = r + 1;
        }
        r
    }
}

} // verus!
