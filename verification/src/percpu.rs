//! Per-host-CPU data, keyed by hardware identifier.
use vstd::prelude::*;

use crate::cpu::{CpuHardId, CpuId};

verus! {

/// What a hypervisor knows of one host CPU once virtualization is enabled
/// on it.
#[derive(Clone, Copy, Debug, PartialEq, Eq, Structural)]
pub struct HCpu {
    /// Its logical index.
    pub id: CpuId,
    /// Its hardware identifier.
    pub hard_id: CpuHardId,
    /// The most levels of guest page table it supports.
    pub max_guest_page_table_levels: usize,
    /// The end of the physical address range it can address.
    pub pa_range_end: usize,
    /// The width in bits of its physical addresses.
    pub pa_bits: usize,
}

/// The queries that the hypervisor makes of a host CPU.
pub trait HCpuOp {
    /// The hardware identifier of the CPU.
    fn hard_id(&self) -> CpuHardId;
}

impl HCpuOp for HCpu {
    fn hard_id(&self) -> (r: CpuHardId)
        ensures
            r == self.hard_id,
    {
        self.hard_id
    }
}

/// Whether the keys of `s` strictly increase.
pub open spec fn keys_increasing<T>(s: Seq<(CpuHardId, Option<T>)>) -> bool {
    forall|i: int, j: int| 0 <= i < j < s.len() ==> (#[trigger] s[i]).0.0 < (#[trigger] s[j]).0.0
}

/// Whether `s` lists the hardware identifier `id`.
pub open spec fn lists<T>(s: Seq<(CpuHardId, Option<T>)>, id: CpuHardId) -> bool {
    exists|i: int| 0 <= i < s.len() && (#[trigger] s[i]).0 == id
}

/// The position at which `s` lists `id`.
pub open spec fn index_of<T>(s: Seq<(CpuHardId, Option<T>)>, id: CpuHardId) -> int {
    choose|i: int| 0 <= i < s.len() && (#[trigger] s[i]).0 == id
}

/// The slot of `id` in `s`, or `None` if `s` does not list `id`.
pub open spec fn slot<T>(s: Seq<(CpuHardId, Option<T>)>, id: CpuHardId) -> Option<Option<T>> {
    if lists(s, id) {
        Some(s[index_of(s, id)].1)
    } else {
        None
    }
}

/// In a sequence with increasing keys, an index whose key is `id` is the
/// one that [`index_of`] picks.
proof fn lemma_index_unique<T>(s: Seq<(CpuHardId, Option<T>)>, id: CpuHardId, i: int)
    requires
        keys_increasing(s),
        0 <= i < s.len(),
        s[i].0 == id,
    ensures
        lists(s, id),
        index_of(s, id) == i,
{
    assert(lists(s, id));
    let j = index_of(s, id);
    if j < i {
        assert(s[j].0.0 < s[i].0.0);
    } else if j > i {
        assert(s[i].0.0 < s[j].0.0);
    }
}

/// Putting `val` at the key `id` sets the slot of `id` and keeps every
/// other slot.
proof fn lemma_put_slot<T>(
    before: Seq<(CpuHardId, Option<T>)>,
    after: Seq<(CpuHardId, Option<T>)>,
    p: int,
    id: CpuHardId,
    val: Option<T>,
    k: CpuHardId,
)
    requires
        keys_increasing(before),
        keys_increasing(after),
        0 <= p <= before.len(),
        put_at(before, after, p, id, val),
    ensures
        slot(after, k) == if k == id { Some(val) } else { slot(before, k) },
{
    if p < before.len() && before[p].0 == id {
        lemma_index_unique(after, id, p);
        if k != id {
            if lists(before, k) {
                let i = index_of(before, k);
                lemma_index_unique(after, k, i);
            } else if lists(after, k) {
                let i = index_of(after, k);
                assert(before[i].0 == k);
            }
        }
    } else {
        assert(after[p].0 == id);
        lemma_index_unique(after, id, p);
        if k != id {
            if lists(before, k) {
                let i = index_of(before, k);
                if i < p {
                    assert(after[i] == before[i]);
                    lemma_index_unique(after, k, i);
                } else {
                    assert(after[i + 1] == before[i]);
                    lemma_index_unique(after, k, i + 1);
                }
            } else if lists(after, k) {
                let i = index_of(after, k);
                if i < p {
                    assert(before[i].0 == k);
                } else {
                    assert(before[i - 1].0 == k);
                }
            }
        }
    }
}

/// Data for each host CPU. A CPU is listed first, with an empty slot, and
/// its data is set later by the CPU itself; entries are kept in increasing
/// order of hardware identifier, as the keys of an ordered map.
pub struct PreCpuSet<T> {
    entries: Vec<(CpuHardId, Option<T>)>,
}

impl<T> PreCpuSet<T> {
    /// Whether the entries are in strictly increasing order of key.
    pub closed spec fn wf(&self) -> bool {
        keys_increasing(self.entries@)
    }

    /// The entries in increasing order of hardware identifier.
    pub closed spec fn entries(&self) -> Seq<(CpuHardId, Option<T>)> {
        self.entries@
    }

    /// A set that lists no CPU.
    pub fn new() -> (r: Self)
        ensures
            r.wf(),
            r.entries() == Seq::<(CpuHardId, Option<T>)>::empty(),
    {
        PreCpuSet { entries: Vec::new() }
    }

    /// The position of `id` among the entries, or that at which it would be
    /// inserted.
    fn position(&self, id: CpuHardId) -> (r: (usize, bool))
        requires
            self.wf(),
        ensures
            r.0 <= self.entries().len(),
            r.1 ==> r.0 < self.entries().len() && self.entries()[r.0 as int].0 == id,
            forall|i: int| 0 <= i < r.0 ==> (#[trigger] self.entries()[i]).0.0 < id.0,
            !r.1 ==> forall|i: int|
                r.0 <= i < self.entries().len() ==> (#[trigger] self.entries()[i]).0.0 > id.0,
    {
        let mut i: usize = 0;
        while i < self.entries.len()
            invariant
                i <= self.entries@.len(),
                keys_increasing(self.entries@),
                forall|j: int| 0 <= j < i ==> (#[trigger] self.entries@[j]).0.0 < id.0,
            decreases self.entries@.len() - i,
        {
            let k = self.entries[i].0.0;
            if k == id.0 {
                return (i, true);
            }
            if k > id.0 {
                assert forall|j: int| i <= j < self.entries@.len() implies (
                #[trigger] self.entries@[j]).0.0 > id.0 by {
                    if j > i {
                        assert(self.entries@[i as int].0.0 < self.entries@[j].0.0);
                    }
                }
                return (i, false);
            }
            i = i + 1;
        }
        (i, false)
    }

    /// Puts `val` in the slot of `id`, listing `id` if it was not listed.
    fn put(&mut self, id: CpuHardId, val: Option<T>)
        requires
            old(self).wf(),
        ensures
            final(self).wf(),
            exists|p: int|
                0 <= p <= old(self).entries().len() && #[trigger] put_at(
                    old(self).entries(),
                    final(self).entries(),
                    p,
                    id,
                    val,
                ),
    {
        let (pos, found) = self.position(id);
        let ghost before = self.entries@;
        if found {
            self.entries.set(pos, (id, val));
            proof {
                assert(put_at(before, self.entries@, pos as int, id, val));
                assert forall|i: int, j: int| 0 <= i < j < self.entries@.len() implies (
                #[trigger] self.entries@[i]).0.0 < (#[trigger] self.entries@[j]).0.0 by {
                    assert(before[i].0.0 < before[j].0.0);
                }
            }
        } else {
            self.entries.insert(pos, (id, val));
            proof {
                assert(put_at(before, self.entries@, pos as int, id, val));
                assert forall|i: int, j: int| 0 <= i < j < self.entries@.len() implies (
                #[trigger] self.entries@[i]).0.0 < (#[trigger] self.entries@[j]).0.0 by {
                    if j < pos {
                        assert(before[i].0.0 < before[j].0.0);
                    } else if j == pos {
                        assert(before[i].0.0 < id.0);
                    } else if i < pos {
                        assert(before[i].0.0 < id.0);
                        assert(before[j - 1].0.0 > id.0);
                    } else if i == pos {
                        assert(before[j - 1].0.0 > id.0);
                    } else {
                        assert(before[i - 1].0.0 < before[j - 1].0.0);
                    }
                }
            }
        }
        assert(put_at(old(self).entries(), self.entries(), pos as int, id, val));
    }
}

impl<T> PreCpuSet<T> {
    /// The slot of `id`: `None` if `id` is not listed, `Some(None)` if it
    /// is listed without data.
    pub open spec fn slot_of(&self, id: CpuHardId) -> Option<Option<T>> {
        slot(self.entries(), id)
    }

    /// Sets the data of the CPU `id`, listing it if it was not listed.
    pub fn set(&mut self, id: CpuHardId, val: T)
        requires
            old(self).wf(),
        ensures
            final(self).wf(),
            forall|k: CpuHardId| #[trigger] final(self).slot_of(k) == if k == id {
                Some(Some(val))
            } else {
                old(self).slot_of(k)
            },
    {
        self.put(id, Some(val));
        let ghost after = self.entries();
        proof {
            let p = choose|p: int|
                0 <= p <= old(self).entries().len() && #[trigger] put_at(
                    old(self).entries(),
                    after,
                    p,
                    id,
                    Some(val),
                );
            assert forall|k: CpuHardId| #[trigger] slot(after, k) == if k == id {
                Some(Some(val))
            } else {
                slot(old(self).entries(), k)
            } by {
                lemma_put_slot(old(self).entries(), after, p, id, Some(val), k);
            }
        }
    }

    /// Lists each CPU of `cpu_list` with an empty slot, emptying the slot
    /// of any that was listed.
    pub fn init(&mut self, cpu_list: &[CpuHardId])
        requires
            old(self).wf(),
        ensures
            final(self).wf(),
            forall|k: CpuHardId| #[trigger] final(self).slot_of(k) == if cpu_list@.contains(k) {
                Some(None::<T>)
            } else {
                old(self).slot_of(k)
            },
    {
        let mut i: usize = 0;
        while i < cpu_list.len()
            invariant
                i <= cpu_list@.len(),
                self.wf(),
                forall|k: CpuHardId| #[trigger] self.slot_of(k) == if cpu_list@.subrange(
                    0,
                    i as int,
                ).contains(k) {
                    Some(None::<T>)
                } else {
                    old(self).slot_of(k)
                },
            decreases cpu_list@.len() - i,
        {
            let id = cpu_list[i];
            let ghost before = self.entries();
            assert(forall|k: CpuHardId| #[trigger] slot(before, k) == if cpu_list@.subrange(
                0,
                i as int,
            ).contains(k) {
                Some(None::<T>)
            } else {
                old(self).slot_of(k)
            }) by {
                assert forall|k: CpuHardId| #[trigger] slot(before, k) == if cpu_list@.subrange(
                    0,
                    i as int,
                ).contains(k) {
                    Some(None::<T>)
                } else {
                    old(self).slot_of(k)
                } by {
                    assert(self.slot_of(k) == slot(before, k));
                }
            }
            self.put(id, None);
            let ghost after = self.entries();
            proof {
                let p = choose|p: int|
                    0 <= p <= before.len() && #[trigger] put_at(before, after, p, id, None::<T>);
                assert forall|k: CpuHardId| #[trigger] slot(after, k) == if cpu_list@.subrange(
                    0,
                    i + 1,
                ).contains(k) {
                    Some(None::<T>)
                } else {
                    slot(old(self).entries(), k)
                } by {
                    lemma_put_slot(before, after, p, id, None::<T>, k);
                    let s0 = cpu_list@.subrange(0, i as int);
                    let s1 = cpu_list@.subrange(0, i + 1);
                    assert(s1 =~= s0.push(id));
                    if s0.contains(k) {
                        let w = choose|w: int| 0 <= w < s0.len() && s0[w] == k;
                        assert(s1[w] == k);
                    }
                    if s1.contains(k) && k != id {
                        let w = choose|w: int| 0 <= w < s1.len() && s1[w] == k;
                        assert(s0[w] == k);
                    }
                    if k == id {
                        assert(s1[i as int] == id);
                    }
                }
            }
            i = i + 1;
        }
        proof {
            assert(cpu_list@.subrange(0, i as int) =~= cpu_list@);
        }
    }

    /// The data of the CPU `id`, or `None` if it is not listed. A listed
    /// CPU must have its data set.
    pub fn get(&self, id: CpuHardId) -> (r: Option<&T>)
        requires
            self.wf(),
            self.slot_of(id) matches Some(v) ==> v is Some,
        ensures
            match self.slot_of(id) {
                None => r is None,
                Some(v) => r matches Some(x) && *x == v->0,
            },
    {
        let (pos, found) = self.position(id);
        if found {
            proof {
                lemma_index_unique(self.entries(), id, pos as int);
            }
            match &self.entries[pos].1 {
                Some(v) => Some(v),
                None => None,
            }
        } else {
            proof {
                if lists(self.entries(), id) {
                    let j = index_of(self.entries(), id);
                    assert(self.entries()[j].0 == id);
                }
            }
            None
        }
    }

    /// The data of the CPU `id`, which must be listed with its data set.
    pub fn current(&self, id: CpuHardId) -> (r: &T)
        requires
            self.wf(),
            self.slot_of(id) matches Some(v) && v is Some,
        ensures
            Some(Some(*r)) == self.slot_of(id),
    {
        self.get(id).unwrap()
    }

    /// Each listed CPU with its data, in increasing order of hardware
    /// identifier. Every listed CPU must have its data set.
    pub fn iter(&self) -> (r: Vec<(CpuHardId, &T)>)
        requires
            forall|i: int| 0 <= i < self.entries().len() ==> (#[trigger] self.entries()[i]).1 is Some,
        ensures
            r@.len() == self.entries().len(),
            forall|i: int|
                0 <= i < r@.len() ==> (#[trigger] r@[i]).0 == self.entries()[i].0 && Some(*r@[i].1)
                    == self.entries()[i].1,
    {
        let mut out: Vec<(CpuHardId, &T)> = Vec::new();
        let mut i: usize = 0;
        while i < self.entries.len()
            invariant
                i <= self.entries@.len(),
                out@.len() == i,
                forall|j: int| 0 <= j < self.entries().len() ==> (#[trigger] self.entries()[j]).1 is Some,
                forall|j: int|
                    0 <= j < i ==> (#[trigger] out@[j]).0 == self.entries()[j].0 && Some(*out@[j].1)
                        == self.entries()[j].1,
            decreases self.entries@.len() - i,
        {
            assert(self.entries()[i as int].1 is Some);
            match &self.entries[i].1 {
                Some(v) => {
                    out.push((self.entries[i].0, v));
                },
                None => {
                    assert(false);
                },
            }
            i = i + 1;
        }
        out
    }
}

/// `after` is `before` with `(id, val)` placed at position `p`: over the
/// entry of `id` if `before` lists `id` there, else inserted there.
pub open spec fn put_at<T>(
    before: Seq<(CpuHardId, Option<T>)>,
    after: Seq<(CpuHardId, Option<T>)>,
    p: int,
    id: CpuHardId,
    val: Option<T>,
) -> bool {
    if p < before.len() && before[p].0 == id {
        after == before.update(p, (id, val))
    } else {
        after == before.insert(p, (id, val))
    }
}

} // verus!

verus! {

/// Whether a scan of `s` from the front meets the data of the CPU with
/// logical index `id` before it meets a CPU whose data is not set.
pub open spec fn scan_reaches(s: Seq<(CpuHardId, Option<HCpu>)>, id: CpuId) -> bool
    decreases s.len(),
{
    s.len() > 0 && s[0].1 is Some && (s[0].1->0.id == id || scan_reaches(s.drop_first(), id))
}

/// The first data in `s` that belongs to the CPU with logical index `id`.
pub open spec fn scan_find(s: Seq<(CpuHardId, Option<HCpu>)>, id: CpuId) -> Option<HCpu>
    decreases s.len(),
{
    if s.len() == 0 {
        None
    } else if s[0].1 is Some && s[0].1->0.id == id {
        s[0].1
    } else {
        scan_find(s.drop_first(), id)
    }
}

impl crate::cpu::HCpuExclusive {
    /// The hardware identifier of the host CPU held: that of the first CPU,
    /// in increasing order of hardware identifier, whose logical index is
    /// the one held. Every CPU before it must have its data set.
    pub fn hard_id(&self, cpus: &PreCpuSet<HCpu>) -> (r: CpuHardId)
        requires
            scan_reaches(cpus.entries(), self.id_spec()),
        ensures
            scan_find(cpus.entries(), self.id_spec()) matches Some(c) && r == c.hard_id,
    {
        let id = self.id();
        let all = cpus.iter_entries();
        let mut i: usize = 0;
        assert(all@.skip(0) =~= all@);
        while i < all.len()
            invariant
                i <= all@.len(),
                all@ == cpus.entries(),
                id == self.id_spec(),
                scan_reaches(all@.skip(i as int), id),
                scan_find(all@, id) == scan_find(all@.skip(i as int), id),
            decreases all@.len() - i,
        {
            let ghost rest = all@.skip(i as int);
            assert(rest[0] == all@[i as int]);
            match &all[i].1 {
                Some(cpu) => {
                    if cpu.id == id {
                        assert(scan_find(rest, id) == Some(*cpu));
                        return cpu.hard_id;
                    }
                },
                None => {},
            }
            assert(rest.drop_first() =~= all@.skip(i + 1));
            i = i + 1;
        }
        assert(all@.skip(i as int).len() == 0);
        CpuHardId::new(0)
    }
}

impl<T> PreCpuSet<T> {
    /// The entries in increasing order of hardware identifier.
    pub fn iter_entries(&self) -> (r: &Vec<(CpuHardId, Option<T>)>)
        ensures
            r@ == self.entries(),
    {
        &self.entries
    }
}

/// What [`PreCpuSet::set`] stores, [`PreCpuSet::get`] gives back: after the
/// data of `id` is set to `val`, `id` holds `val` and every other CPU holds
/// what it held.
pub proof fn lemma_get_after_set<T>(before: &PreCpuSet<T>, after: &PreCpuSet<T>, id: CpuHardId, val: T, other: CpuHardId)
    requires
        forall|k: CpuHardId| #[trigger] after.slot_of(k) == if k == id {
            Some(Some(val))
        } else {
            before.slot_of(k)
        },
        other != id,
    ensures
        after.slot_of(id) == Some(Some(val)),
        after.slot_of(other) == before.slot_of(other),
{
    assert(after.slot_of(id) == Some(Some(val)));
    assert(after.slot_of(other) == before.slot_of(other));
}

} // verus!

verus! {

/// What an architecture provides to manage its host CPUs.
pub trait ArchOp {
    /// The per-CPU data the architecture keeps.
    type HCPU: HCpuOp;

    /// Prepares the architecture; the error says what failed.
    fn init() -> Result<(), String>;

    /// Writes back the data cache over `size` bytes from `vaddr`.
    fn cache_flush(vaddr: crate::addr::HostVirtAddr, size: usize);

    /// The hardware identifier of the CPU running the caller.
    fn cpu_hard_id() -> CpuHardId;

    /// The hardware identifiers of the host CPUs.
    fn cpu_list() -> Vec<CpuHardId>;

    /// Enables virtualization on the CPU running the caller, which has
    /// the logical index `id`, and returns its data.
    fn current_cpu_init(id: crate::cpu::CpuId) -> Result<Self::HCPU, String>;
}

/// The list of host CPUs, asked of the architecture once and kept.
pub struct CpuListCache {
    list: Option<Vec<CpuHardId>>,
}

impl CpuListCache {
    /// The list, once it has been asked for.
    pub closed spec fn cached(&self) -> Option<Seq<CpuHardId>> {
        match self.list {
            Some(v) => Some(v@),
            None => None,
        }
    }

    /// A cache that has not asked yet.
    pub fn new() -> (r: Self)
        ensures
            r.cached() is None,
    {
        CpuListCache { list: None }
    }
}

/// The host CPUs: the list kept from the first call, or, on the first
/// call, the list `probe` gives, which is kept.
pub fn list<F: FnOnce() -> Vec<CpuHardId>>(cache: &mut CpuListCache, probe: F) -> (r: Vec<CpuHardId>)
    requires
        call_requires(probe, ()),
    ensures
        match old(cache).cached() {
            Some(l) => r@ == l && final(cache).cached() == old(cache).cached(),
            None => call_ensures(probe, (), r) && final(cache).cached() == Some(r@),
        },
{
    match &cache.list {
        Some(l) => {
            let mut out: Vec<CpuHardId> = Vec::new();
            let mut i: usize = 0;
            while i < l.len()
                invariant
                    i <= l@.len(),
                    out@ == l@.subrange(0, i as int),
                decreases l@.len() - i,
            {
                out.push(l[i]);
                i = i + 1;
                assert(out@ =~= l@.subrange(0, i as int));
            }
            assert(l@.subrange(0, i as int) =~= l@);
            out
        },
        None => {
            let fresh = probe();
            let mut kept: Vec<CpuHardId> = Vec::new();
            let mut i: usize = 0;
            while i < fresh.len()
                invariant
                    i <= fresh@.len(),
                    kept@ == fresh@.subrange(0, i as int),
                decreases fresh@.len() - i,
            {
                kept.push(fresh[i]);
                i = i + 1;
                assert(kept@ =~= fresh@.subrange(0, i as int));
            }
            assert(fresh@.subrange(0, i as int) =~= fresh@);
            cache.list = Some(kept);
            fresh
        },
    }
}

/// The number of host CPUs.
pub fn count<F: FnOnce() -> Vec<CpuHardId>>(cache: &mut CpuListCache, probe: F) -> (r: usize)
    requires
        call_requires(probe, ()),
    ensures
        match old(cache).cached() {
            Some(l) => r == l.len() && final(cache).cached() == old(cache).cached(),
            None => exists|v: Vec<CpuHardId>|
                call_ensures(probe, (), v) && r == v@.len() && final(cache).cached() == Some(v@),
        },
{
    let l = list(cache, probe);
    l.len()
}

} // verus!
