//! The host device memory that a machine without its own device tree is
//! given: each region of a device that the host tree enables, rounded to
//! 4 KiB, sorted by address and merged where regions touch or overlap.
use vstd::prelude::*;

use crate::addr::{align_down_4k, align_up_4k, spec_align_down_4k, spec_align_up_4k};
use crate::fdt::bytes::copy_bytes;

verus! {

/// A region of host device memory passed through at the same guest
/// address, with the name of the device it was found on.
#[derive(Debug, Clone)]
pub struct DeviceRegion {
    pub gpa: usize,
    pub len: usize,
    pub name: Vec<u8>,
}

/// A region as plain values: start, length and device name.
pub type RegionView = (usize, usize, Seq<u8>);

/// The plain values of a list of regions.
pub open spec fn region_views(v: Seq<DeviceRegion>) -> Seq<RegionView> {
    v.map_values(|r: DeviceRegion| (r.gpa, r.len, r.name@))
}

/// `s` with `x` placed after every entry that does not start above it and
/// before the entries after them.
pub open spec fn insert_by_gpa(s: Seq<RegionView>, x: RegionView) -> Seq<RegionView>
    decreases s.len(),
{
    if s.len() == 0 {
        seq![x]
    } else if s.last().0 <= x.0 {
        s.push(x)
    } else {
        insert_by_gpa(s.drop_last(), x).push(s.last())
    }
}

/// `s` sorted by start, entries with equal starts kept in their order.
pub open spec fn sort_by_gpa(s: Seq<RegionView>) -> Seq<RegionView>
    decreases s.len(),
{
    if s.len() == 0 {
        Seq::empty()
    } else {
        insert_by_gpa(sort_by_gpa(s.drop_last()), s.last())
    }
}

/// Inserting at the place after the last entry that does not start above
/// `x` is what [`insert_by_gpa`] does.
proof fn lemma_insert_by_gpa_at(s: Seq<RegionView>, x: RegionView, p: int)
    requires
        0 <= p <= s.len(),
        forall|k: int| p <= k < s.len() ==> (#[trigger] s[k]).0 > x.0,
        p > 0 ==> s[p - 1].0 <= x.0,
    ensures
        insert_by_gpa(s, x) == s.insert(p, x),
    decreases s.len(),
{
    if s.len() == 0 {
        assert(s.insert(p, x) =~= seq![x]);
    } else if p == s.len() {
        assert(s.insert(p, x) =~= s.push(x));
    } else {
        assert(s.last().0 > x.0) by {
            assert(s[s.len() - 1] == s.last());
        }
        lemma_insert_by_gpa_at(s.drop_last(), x, p);
        assert(s.drop_last().insert(p, x).push(s.last()) =~= s.insert(p, x));
    }
}

/// Sorts `regions` by start, keeping regions with equal starts in their
/// order.
pub fn sort_regions_by_gpa(regions: Vec<DeviceRegion>) -> (r: Vec<DeviceRegion>)
    ensures
        region_views(r@) == sort_by_gpa(region_views(regions@)),
{
    let ghost all = region_views(regions@);
    let mut out: Vec<DeviceRegion> = Vec::new();
    let mut rest = regions;
    proof {
        assert(all.subrange(0, 0) =~= Seq::<RegionView>::empty());
        assert(region_views(out@) =~= Seq::<RegionView>::empty());
        assert(region_views(rest@) =~= all.subrange(0, all.len() as int));
    }
    while rest.len() > 0
        invariant
            rest@.len() <= all.len(),
            region_views(rest@) =~= all.subrange(all.len() - rest@.len(), all.len() as int),
            region_views(out@) == sort_by_gpa(all.subrange(0, all.len() - rest@.len())),
        decreases rest@.len(),
    {
        let ghost n = all.len() - rest@.len();
        let ghost before = region_views(rest@);
        let x = rest.remove(0);
        proof {
            assert(region_views(rest@) =~= before.drop_first());
            assert(before[0] == (x.gpa, x.len, x.name@));
            assert(all.subrange(0, n + 1).drop_last() =~= all.subrange(0, n));
            assert(all.subrange(0, n + 1).last() == all[n]);
            assert(all[n] == before[0]);
        }
        let ghost ov = region_views(out@);
        let mut p: usize = out.len();
        while p > 0 && out[p - 1].gpa > x.gpa
            invariant
                p <= out@.len(),
                ov == region_views(out@),
                forall|k: int| p <= k < ov.len() ==> (#[trigger] ov[k]).0 > x.gpa,
            decreases p,
        {
            p = p - 1;
        }
        proof {
            lemma_insert_by_gpa_at(ov, (x.gpa, x.len, x.name@), p as int);
        }
        out.insert(p, x);
        proof {
            assert(region_views(out@) =~= ov.insert(p as int, all[n]));
            assert(rest@.len() == all.len() - (n + 1));
        }
    }
    proof {
        assert(all.subrange(0, all.len() as int) =~= all);
    }
    out
}

/// The regions merged so far, with one more: merged into the last when it
/// starts at or before the end of the last, else added after it. An added
/// region takes the name of the one before it.
pub open spec fn merge_step(acc: Seq<RegionView>, x: RegionView) -> Seq<RegionView> {
    if acc.len() == 0 {
        seq![x]
    } else {
        let last = acc.last();
        if last.0 + last.1 >= x.0 {
            let end = if last.0 + last.1 < x.0 + x.1 { x.0 + x.1 } else { last.0 + last.1 };
            acc.drop_last().push((last.0, (end - last.0) as usize, last.2))
        } else {
            acc.push((x.0, x.1, last.2))
        }
    }
}

/// The regions of `s` merged in order.
pub open spec fn merge_regions(s: Seq<RegionView>) -> Seq<RegionView>
    decreases s.len(),
{
    if s.len() == 0 {
        Seq::empty()
    } else {
        merge_step(merge_regions(s.drop_last()), s.last())
    }
}

/// Whether every region of `s` ends within the address space.
pub open spec fn regions_fit(s: Seq<RegionView>) -> bool {
    forall|i: int| 0 <= i < s.len() ==> (#[trigger] s[i]).0 + s[i].1 <= usize::MAX
}

/// Merging regions that fit gives regions that fit, each ending no later
/// than the furthest input end.
proof fn lemma_merge_fits(s: Seq<RegionView>)
    requires
        regions_fit(s),
    ensures
        regions_fit(merge_regions(s)),
    decreases s.len(),
{
    if s.len() > 0 {
        assert(regions_fit(s.drop_last())) by {
            assert forall|i: int| 0 <= i < s.drop_last().len() implies (#[trigger] s.drop_last()[i]).0
                + s.drop_last()[i].1 <= usize::MAX by {
                assert(s.drop_last()[i] == s[i]);
            }
        }
        lemma_merge_fits(s.drop_last());
        let acc = merge_regions(s.drop_last());
        let x = s.last();
        assert(x.0 + x.1 <= usize::MAX) by {
            assert(s[s.len() - 1] == x);
        }
        let m = merge_regions(s);
        assert forall|i: int| 0 <= i < m.len() implies (#[trigger] m[i]).0 + m[i].1 <= usize::MAX by {
            if acc.len() > 0 && i < acc.len() - 1 {
                assert(m[i] == acc[i]);
            } else if acc.len() > 0 && i < acc.len() {
                assert(acc[acc.len() - 1] == acc.last());
            } else if i < acc.len() {
                assert(m[i] == acc[i]);
            }
        }
    }
}

/// Merges the regions of `regions` in order, each into the last merged
/// region when it starts at or before that region's end.
pub fn merge_device_regions(regions: Vec<DeviceRegion>) -> (r: Vec<DeviceRegion>)
    requires
        regions_fit(region_views(regions@)),
    ensures
        region_views(r@) == merge_regions(region_views(regions@)),
{
    let ghost all = region_views(regions@);
    let mut acc: Vec<DeviceRegion> = Vec::new();
    let mut i: usize = 0;
    proof {
        assert(region_views(acc@) =~= merge_regions(all.subrange(0, 0)));
    }
    while i < regions.len()
        invariant
            i <= regions@.len(),
            all == region_views(regions@),
            regions_fit(all),
            region_views(acc@) == merge_regions(all.subrange(0, i as int)),
        decreases regions@.len() - i,
    {
        let ghost av = region_views(acc@);
        proof {
            assert(all.subrange(0, i + 1).drop_last() =~= all.subrange(0, i as int));
            assert(all.subrange(0, i + 1).last() == all[i as int]);
            assert(regions_fit(all.subrange(0, i as int))) by {
                assert forall|k: int| 0 <= k < i implies (#[trigger] all.subrange(0, i as int)[k]).0
                    + all.subrange(0, i as int)[k].1 <= usize::MAX by {
                    assert(all.subrange(0, i as int)[k] == all[k]);
                }
            }
            lemma_merge_fits(all.subrange(0, i as int));
            assert(all[i as int].0 + all[i as int].1 <= usize::MAX);
        }
        let x = &regions[i];
        let n = acc.len();
        if n == 0 {
            acc.push(DeviceRegion { gpa: x.gpa, len: x.len, name: copy_bytes(&x.name) });
            proof {
                assert(region_views(acc@) =~= seq![all[i as int]]);
            }
        } else {
            let last_gpa = acc[n - 1].gpa;
            let last_len = acc[n - 1].len;
            let last_name = copy_bytes(&acc[n - 1].name);
            proof {
                assert(av[n - 1] == av.last());
                assert(av[n - 1].0 + av[n - 1].1 <= usize::MAX);
            }
            if last_gpa + last_len >= x.gpa {
                let end = if last_gpa + last_len < x.gpa + x.len { x.gpa + x.len } else { last_gpa + last_len };
                acc.pop();
                acc.push(DeviceRegion { gpa: last_gpa, len: end - last_gpa, name: last_name });
                proof {
                    assert(region_views(acc@) =~= av.drop_last().push((last_gpa, (end - last_gpa) as usize, av.last().2)));
                }
            } else {
                acc.push(DeviceRegion { gpa: x.gpa, len: x.len, name: last_name });
                proof {
                    assert(region_views(acc@) =~= av.push((x.gpa, x.len, av.last().2)));
                }
            }
        }
        i = i + 1;
    }
    proof {
        assert(all.subrange(0, i as int) =~= all);
    }
    acc
}

} // verus!

verus! {

/// Whether the regions of `s` start in increasing order.
pub open spec fn sorted_by_gpa(s: Seq<RegionView>) -> bool {
    forall|i: int, j: int| 0 <= i < j < s.len() ==> (#[trigger] s[i]).0 <= (#[trigger] s[j]).0
}

/// Whether each region of `s` ends before the next begins, with a gap.
pub open spec fn separated(s: Seq<RegionView>) -> bool {
    forall|i: int| 0 <= i < s.len() - 1 ==> (#[trigger] s[i]).0 + s[i].1 < s[i + 1].0
}

/// Whether a region of `s` holds the address `a`.
pub open spec fn covers(s: Seq<RegionView>, a: int) -> bool {
    exists|i: int| 0 <= i < s.len() && (#[trigger] s[i]).0 <= a < s[i].0 + s[i].1
}

proof fn lemma_insert_by_gpa_sorted(s: Seq<RegionView>, x: RegionView)
    requires
        sorted_by_gpa(s),
    ensures
        sorted_by_gpa(insert_by_gpa(s, x)),
        insert_by_gpa(s, x).to_multiset() == s.to_multiset().insert(x),
        insert_by_gpa(s, x).len() == s.len() + 1,
    decreases s.len(),
{
    broadcast use vstd::seq_lib::group_to_multiset_ensures;

    if s.len() == 0 {
        assert(seq![x] =~= Seq::<RegionView>::empty().push(x));
    } else if s.last().0 <= x.0 {
        let t = s.push(x);
        assert forall|i: int, j: int| 0 <= i < j < t.len() implies (#[trigger] t[i]).0 <= (#[trigger] t[j]).0 by {
            if j == s.len() {
                assert(s[s.len() - 1] == s.last());
                if i < s.len() - 1 {
                    assert(s[i].0 <= s[s.len() - 1].0);
                }
            }
        }
    } else {
        let d = s.drop_last();
        assert(sorted_by_gpa(d)) by {
            assert forall|i: int, j: int| 0 <= i < j < d.len() implies (#[trigger] d[i]).0 <= (#[trigger] d[j]).0 by {
                assert(d[i] == s[i] && d[j] == s[j]);
            }
        }
        lemma_insert_by_gpa_sorted(d, x);
        let u = insert_by_gpa(d, x);
        let t = u.push(s.last());
        assert(s.last() == s[s.len() - 1]);
        assert forall|i: int, j: int| 0 <= i < j < t.len() implies (#[trigger] t[i]).0 <= (#[trigger] t[j]).0 by {
            if j == u.len() {
                assert(t[j] == s.last());
                assert(u.to_multiset().count(u[i]) > 0) by {
                    assert(u.contains(u[i]));
                    u.to_multiset_ensures();
                }
                if u[i] == x {
                } else {
                    assert(d.to_multiset().count(u[i]) > 0);
                    d.to_multiset_ensures();
                    let k = choose|k: int| 0 <= k < d.len() && d[k] == u[i];
                    assert(s[k] == d[k]);
                }
            }
        }
        assert(s =~= d.push(s.last()));
    }
}

/// Sorting by start gives regions in increasing order of start, the same
/// regions as before.
pub proof fn lemma_sort_by_gpa_sorted(s: Seq<RegionView>)
    ensures
        sorted_by_gpa(sort_by_gpa(s)),
        sort_by_gpa(s).to_multiset() == s.to_multiset(),
        sort_by_gpa(s).len() == s.len(),
    decreases s.len(),
{
    broadcast use vstd::seq_lib::group_to_multiset_ensures;

    if s.len() > 0 {
        lemma_sort_by_gpa_sorted(s.drop_last());
        lemma_insert_by_gpa_sorted(sort_by_gpa(s.drop_last()), s.last());
        assert(s =~= s.drop_last().push(s.last()));
    }
}

} // verus!

verus! {

/// Merging regions sorted by start gives regions with gaps between them
/// that hold exactly the addresses the regions held.
pub proof fn lemma_merge_regions(s: Seq<RegionView>)
    requires
        sorted_by_gpa(s),
        regions_fit(s),
    ensures
        separated(merge_regions(s)),
        forall|a: int| #[trigger] covers(merge_regions(s), a) == covers(s, a),
        s.len() > 0 ==> merge_regions(s).len() > 0 && merge_regions(s).last().0 <= s.last().0,
    decreases s.len(),
{
    if s.len() > 0 {
        let d = s.drop_last();
        let x = s.last();
        assert(x == s[s.len() - 1]);
        assert(sorted_by_gpa(d)) by {
            assert forall|i: int, j: int| 0 <= i < j < d.len() implies (#[trigger] d[i]).0 <= (#[trigger] d[j]).0 by {
                assert(d[i] == s[i] && d[j] == s[j]);
            }
        }
        assert(regions_fit(d)) by {
            assert forall|i: int| 0 <= i < d.len() implies (#[trigger] d[i]).0 + d[i].1 <= usize::MAX by {
                assert(d[i] == s[i]);
            }
        }
        lemma_merge_regions(d);
        lemma_merge_fits(d);
        let acc = merge_regions(d);
        let m = merge_regions(s);
        assert(x.0 + x.1 <= usize::MAX);
        if acc.len() == 0 {
            assert(d.len() == 0);
            assert(m =~= seq![x]);
            assert forall|a: int| #[trigger] covers(m, a) == covers(s, a) by {
                if covers(s, a) {
                    let i = choose|i: int| 0 <= i < s.len() && (#[trigger] s[i]).0 <= a < s[i].0 + s[i].1;
                    assert(m[0] == s[i]);
                }
                if covers(m, a) {
                    assert(m[0] == s[0]);
                }
            }
        } else {
            let last = acc.last();
            assert(last == acc[acc.len() - 1]);
            assert(last.0 + last.1 <= usize::MAX);
            assert(last.0 <= d.last().0);
            assert(d.last() == s[s.len() - 2]);
            assert(last.0 <= x.0);
            if last.0 + last.1 >= x.0 {
                let end = if last.0 + last.1 < x.0 + x.1 { x.0 + x.1 } else { last.0 + last.1 };
                let nl: RegionView = (last.0, (end - last.0) as usize, last.2);
                assert(m =~= acc.drop_last().push(nl));
                assert forall|i: int| 0 <= i < m.len() - 1 implies (#[trigger] m[i]).0 + m[i].1 < m[i + 1].0 by {
                    assert(m[i] == acc[i]);
                    if i + 1 < m.len() - 1 {
                        assert(m[i + 1] == acc[i + 1]);
                    } else {
                        assert(m[i + 1].0 == acc[i + 1].0);
                    }
                }
                assert forall|a: int| #[trigger] covers(m, a) == covers(s, a) by {
                    if covers(s, a) {
                        let i = choose|i: int| 0 <= i < s.len() && (#[trigger] s[i]).0 <= a < s[i].0 + s[i].1;
                        if i < d.len() {
                            assert(d[i] == s[i]);
                            assert(covers(d, a));
                            assert(covers(acc, a));
                            let j = choose|j: int| 0 <= j < acc.len() && (#[trigger] acc[j]).0 <= a < acc[j].0 + acc[j].1;
                            if j < acc.len() - 1 {
                                assert(m[j] == acc[j]);
                            } else {
                                assert(m[m.len() - 1] == nl);
                            }
                        } else {
                            assert(m[m.len() - 1] == nl);
                        }
                    }
                    if covers(m, a) {
                        let j = choose|j: int| 0 <= j < m.len() && (#[trigger] m[j]).0 <= a < m[j].0 + m[j].1;
                        if j < m.len() - 1 {
                            assert(m[j] == acc[j]);
                            assert(covers(acc, a));
                            assert(covers(d, a));
                            let i = choose|i: int| 0 <= i < d.len() && (#[trigger] d[i]).0 <= a < d[i].0 + d[i].1;
                            assert(s[i] == d[i]);
                        } else if a < last.0 + last.1 {
                            assert(acc[acc.len() - 1] == last);
                            assert(covers(acc, a));
                            assert(covers(d, a));
                            let i = choose|i: int| 0 <= i < d.len() && (#[trigger] d[i]).0 <= a < d[i].0 + d[i].1;
                            assert(s[i] == d[i]);
                        } else {
                            assert(s[s.len() - 1] == x);
                        }
                    }
                }
            } else {
                let nx: RegionView = (x.0, x.1, last.2);
                assert(m =~= acc.push(nx));
                assert forall|i: int| 0 <= i < m.len() - 1 implies (#[trigger] m[i]).0 + m[i].1 < m[i + 1].0 by {
                    assert(m[i] == acc[i]);
                    if i + 1 < m.len() - 1 {
                        assert(m[i + 1] == acc[i + 1]);
                    }
                }
                assert forall|a: int| #[trigger] covers(m, a) == covers(s, a) by {
                    if covers(s, a) {
                        let i = choose|i: int| 0 <= i < s.len() && (#[trigger] s[i]).0 <= a < s[i].0 + s[i].1;
                        if i < d.len() {
                            assert(d[i] == s[i]);
                            assert(covers(d, a));
                            assert(covers(acc, a));
                            let j = choose|j: int| 0 <= j < acc.len() && (#[trigger] acc[j]).0 <= a < acc[j].0 + acc[j].1;
                            assert(m[j] == acc[j]);
                        } else {
                            assert(m[m.len() - 1] == nx);
                        }
                    }
                    if covers(m, a) {
                        let j = choose|j: int| 0 <= j < m.len() && (#[trigger] m[j]).0 <= a < m[j].0 + m[j].1;
                        if j < m.len() - 1 {
                            assert(m[j] == acc[j]);
                            assert(covers(acc, a));
                            assert(covers(d, a));
                            let i = choose|i: int| 0 <= i < d.len() && (#[trigger] d[i]).0 <= a < d[i].0 + d[i].1;
                            assert(s[i] == d[i]);
                        } else {
                            assert(s[s.len() - 1] == x);
                        }
                    }
                }
            }
        }
    }
}

} // verus!

verus! {

/// A register range of a device that the host device tree enables: its
/// address, its size if the tree gives one, and the device's name.
#[derive(Debug, Clone)]
pub struct RegEntry {
    pub address: usize,
    pub size: Option<usize>,
    pub name: Vec<u8>,
}

/// The region a register range gives, rounded out to 4 KiB, if it has a
/// size above zero.
pub open spec fn entry_region(e: RegEntry) -> Option<RegionView> {
    match e.size {
        Some(size) => if size > 0 {
            Some(
                (
                    spec_align_down_4k(e.address as int) as usize,
                    spec_align_up_4k(size as int) as usize,
                    e.name@,
                ),
            )
        } else {
            None
        },
        None => None,
    }
}

/// The regions that the register ranges give, in order.
pub open spec fn collected(entries: Seq<RegEntry>) -> Seq<RegionView>
    decreases entries.len(),
{
    if entries.len() == 0 {
        Seq::empty()
    } else {
        match entry_region(entries.last()) {
            Some(r) => collected(entries.drop_last()).push(r),
            None => collected(entries.drop_last()),
        }
    }
}

/// Whether each register range with a size can be rounded out to 4 KiB
/// and ends within the address space once rounded.
pub open spec fn entries_fit(entries: Seq<RegEntry>) -> bool {
    forall|i: int|
        0 <= i < entries.len() ==> match (#[trigger] entries[i]).size {
            Some(size) => size + 4096 <= usize::MAX && spec_align_down_4k(entries[i].address as int)
                + spec_align_up_4k(size as int) <= usize::MAX,
            None => true,
        }
}

/// The regions that the register ranges give, rounded out to 4 KiB.
pub fn collect_device_regions(entries: &[RegEntry]) -> (r: Vec<DeviceRegion>)
    requires
        entries_fit(entries@),
    ensures
        region_views(r@) == collected(entries@),
        regions_fit(region_views(r@)),
{
    let mut out: Vec<DeviceRegion> = Vec::new();
    let mut i: usize = 0;
    while i < entries.len()
        invariant
            i <= entries@.len(),
            entries_fit(entries@),
            region_views(out@) == collected(entries@.subrange(0, i as int)),
            regions_fit(region_views(out@)),
        decreases entries@.len() - i,
    {
        let e = &entries[i];
        proof {
            assert(entries@.subrange(0, i + 1).drop_last() =~= entries@.subrange(0, i as int));
            assert(entries@.subrange(0, i + 1).last() == entries@[i as int]);
        }
        let ghost before = region_views(out@);
        match e.size {
            Some(size) => {
                if size > 0 {
                    let gpa = align_down_4k(e.address);
                    let len = align_up_4k(size);
                    out.push(DeviceRegion { gpa, len, name: copy_bytes(&e.name) });
                    proof {
                        assert(region_views(out@) =~= before.push((gpa, len, e.name@)));
                        assert forall|k: int| 0 <= k < region_views(out@).len() implies (#[trigger] region_views(
                            out@,
                        )[k]).0 + region_views(out@)[k].1 <= usize::MAX by {
                            if k < before.len() {
                                assert(region_views(out@)[k] == before[k]);
                            }
                        }
                    }
                }
            },
            None => {},
        }
        i = i + 1;
    }
    proof {
        assert(entries@.subrange(0, i as int) =~= entries@);
    }
    out
}

/// A sorted list of regions that fit is sorted the same way after the
/// regions are sorted again, and still fits.
proof fn lemma_sorted_fit(s: Seq<RegionView>)
    requires
        regions_fit(s),
    ensures
        regions_fit(sort_by_gpa(s)),
{
    lemma_sort_by_gpa_sorted(s);
    let t = sort_by_gpa(s);
    assert forall|i: int| 0 <= i < t.len() implies (#[trigger] t[i]).0 + t[i].1 <= usize::MAX by {
        broadcast use vstd::seq_lib::group_to_multiset_ensures;
        assert(t.contains(t[i]));
        t.to_multiset_ensures();
        s.to_multiset_ensures();
        assert(s.to_multiset().count(t[i]) > 0);
        let k = choose|k: int| 0 <= k < s.len() && s[k] == t[i];
        assert(s[k].0 + s[k].1 <= usize::MAX);
    }
}

/// The host device memory to pass through: the regions of the register
/// ranges rounded out to 4 KiB, sorted by address and merged where they
/// touch or overlap. The merged regions have gaps between them and hold
/// exactly the addresses the rounded regions held.
pub fn passthrough_device_regions(entries: &[RegEntry]) -> (r: Vec<DeviceRegion>)
    requires
        entries_fit(entries@),
    ensures
        region_views(r@) == merge_regions(sort_by_gpa(collected(entries@))),
        separated(region_views(r@)),
        forall|a: int| #[trigger] covers(region_views(r@), a) == covers(collected(entries@), a),
{
    let regions = collect_device_regions(entries);
    let sorted = sort_regions_by_gpa(regions);
    proof {
        lemma_sorted_fit(collected(entries@));
        lemma_sort_by_gpa_sorted(collected(entries@));
        lemma_merge_regions(sort_by_gpa(collected(entries@)));
    }
    let merged = merge_device_regions(sorted);
    proof {
        let c = collected(entries@);
        let t = sort_by_gpa(c);
        assert forall|a: int| #[trigger] covers(t, a) == covers(c, a) by {
            broadcast use vstd::seq_lib::group_to_multiset_ensures;
            t.to_multiset_ensures();
            c.to_multiset_ensures();
            if covers(t, a) {
                let i = choose|i: int| 0 <= i < t.len() && (#[trigger] t[i]).0 <= a < t[i].0 + t[i].1;
                assert(t.contains(t[i]));
                assert(c.to_multiset().count(t[i]) > 0);
                let k = choose|k: int| 0 <= k < c.len() && c[k] == t[i];
                assert(c[k].0 <= a < c[k].0 + c[k].1);
            }
            if covers(c, a) {
                let i = choose|i: int| 0 <= i < c.len() && (#[trigger] c[i]).0 <= a < c[i].0 + c[i].1;
                assert(c.contains(c[i]));
                assert(t.to_multiset().count(c[i]) > 0);
                let k = choose|k: int| 0 <= k < t.len() && t[k] == c[i];
                assert(t[k].0 <= a < t[k].0 + t[k].1);
            }
        }
    }
    merged
}

} // verus!

verus! {

/// What the machine knows of a device it passes through; nothing yet.
#[derive(Debug, Clone)]
pub struct DeviceInfo {}

} // verus!

verus! {

/// A register range as plain values: address, size and device name.
pub open spec fn reg_entry_view(e: RegEntry) -> (usize, Option<usize>, Seq<u8>) {
    (e.address, e.size, e.name@)
}

/// The number in one or two big-endian cells at byte `off` of `v`.
pub open spec fn cells_value(v: Seq<u8>, off: int, cells: u32) -> int {
    if cells == 1 {
        crate::fdt::builder::be32_at(v, off)
    } else {
        crate::fdt::builder::be32_at(v, off) * 0x1_0000_0000 + crate::fdt::builder::be32_at(v, off + 4)
    }
}

/// The (address, size) pairs of a `reg` value from byte `off` on, with
/// addresses of `ac` cells and sizes of `sc` cells: one pair per whole
/// group of cells, no size when sizes take no cells. Only addresses of
/// one or two cells and sizes of at most two are read.
pub open spec fn reg_pairs_from(v: Seq<u8>, off: int, ac: u32, sc: u32) -> Seq<(u64, Option<u64>)>
    decreases v.len() - off,
{
    if !(ac == 1 || ac == 2) || sc > 2 || off < 0 || off + 4 * (ac + sc) > v.len() {
        Seq::empty()
    } else {
        seq![
            (
                cells_value(v, off, ac) as u64,
                if sc == 0 {
                    None
                } else {
                    Some(cells_value(v, off + 4 * ac, sc) as u64)
                },
            ),
        ] + reg_pairs_from(v, off + 4 * (ac + sc), ac, sc)
    }
}

/// A register range as plain values, from an (address, size) pair read
/// from a `reg` value and the device's name.
pub open spec fn pair_entry(p: (u64, Option<u64>), name: Seq<u8>) -> (usize, Option<usize>, Seq<u8>) {
    (
        p.0 as usize,
        match p.1 {
            Some(s) => Some(s as usize),
            None => None,
        },
        name,
    )
}

/// The last node before index `i + 1` of a walk at level `level`: the
/// parent of a node at level `level + 1` that comes after it.
pub open spec fn parent_from(nodes: Seq<crate::fdt::node::FdtNode>, level: int, i: int) -> Option<int>
    decreases i + 1,
{
    if i < 0 {
        None
    } else if nodes[i].level == level {
        Some(i)
    } else {
        parent_from(nodes, level, i - 1)
    }
}

/// The address and size cells of node `j`'s `reg`: those its parent
/// gives, two each without a parent.
pub open spec fn reg_cells(nodes: Seq<crate::fdt::node::FdtNode>, j: int) -> (u32, u32) {
    match parent_from(nodes, nodes[j].level - 1, j - 1) {
        Some(p) => (
            crate::fdt::builder::address_cells_of(nodes[p]@),
            crate::fdt::builder::size_cells_of(nodes[p]@),
        ),
        None => (2, 2),
    }
}

/// The register ranges of node `j` of a walk: none when it is disabled or
/// has no `reg`, else one per (address, size) pair of its `reg`, with its
/// name.
pub open spec fn node_reg_entries(nodes: Seq<crate::fdt::node::FdtNode>, j: int) -> Seq<
    (usize, Option<usize>, Seq<u8>),
> {
    let props = nodes[j]@.properties;
    let disabled = match crate::fdt::builder::find_prop(props, crate::fdt::bytes::ascii_bytes("status"@)) {
        Some(v) => crate::fdt::builder::is_disabled_value(v),
        None => false,
    };
    if disabled {
        Seq::empty()
    } else {
        match crate::fdt::builder::find_prop(props, crate::fdt::bytes::ascii_bytes("reg"@)) {
            Some(v) => reg_pairs_from(v, 0, reg_cells(nodes, j).0, reg_cells(nodes, j).1).map_values(
                |p: (u64, Option<u64>)| pair_entry(p, nodes[j].name@),
            ),
            None => Seq::empty(),
        }
    }
}

/// The register ranges of the first `n` nodes of a walk, in order.
pub open spec fn walk_reg_entries(nodes: Seq<crate::fdt::node::FdtNode>, n: int) -> Seq<
    (usize, Option<usize>, Seq<u8>),
>
    decreases n,
{
    if n <= 0 {
        Seq::empty()
    } else {
        walk_reg_entries(nodes, n - 1) + node_reg_entries(nodes, n - 1)
    }
}

/// The number in one or two big-endian cells at byte `off` of `v`.
fn read_cells(v: &[u8], off: usize, cells: u32) -> (r: u64)
    requires
        cells == 1 || cells == 2,
        off + 4 * cells <= v@.len(),
    ensures
        r == cells_value(v@, off as int, cells) as u64,
        r == cells_value(v@, off as int, cells),
{
    let hi = (v[off] as u64) * 0x100_0000 + (v[off + 1] as u64) * 0x1_0000 + (v[off + 2] as u64) * 0x100
        + v[off + 3] as u64;
    if cells == 1 {
        hi
    } else {
        let lo = (v[off + 4] as u64) * 0x100_0000 + (v[off + 5] as u64) * 0x1_0000 + (v[off + 6] as u64)
            * 0x100 + v[off + 7] as u64;
        hi * 0x1_0000_0000 + lo
    }
}

/// The index of the parent of node `j`: the last node before it one level
/// up.
fn parent_index(nodes: &[crate::fdt::node::FdtNode], j: usize) -> (r: Option<usize>)
    requires
        j < nodes@.len(),
    ensures
        parent_from(nodes@, nodes@[j as int].level - 1, j - 1) == match r {
            Some(p) => Some(p as int),
            None => None::<int>,
        },
        r matches Some(p) ==> p < j,
{
    let level = nodes[j].level;
    let mut i: usize = j;
    while i > 0
        invariant
            i <= j < nodes@.len(),
            level == nodes@[j as int].level,
            parent_from(nodes@, level - 1, j - 1) == parent_from(nodes@, level - 1, i - 1),
        decreases i,
    {
        if level > 0 && nodes[i - 1].level == level - 1 {
            return Some(i - 1);
        }
        i = i - 1;
    }
    None
}

/// Adds the register ranges of the `reg` value `v`, read from byte `off`
/// on with addresses of `ac` and sizes of `sc` cells, under `name`.
fn push_reg_pairs(out: &mut Vec<RegEntry>, v: &[u8], ac: u32, sc: u32, name: &[u8])
    ensures
        final(out)@.map_values(|e: RegEntry| reg_entry_view(e)) == old(out)@.map_values(
            |e: RegEntry| reg_entry_view(e),
        ) + reg_pairs_from(v@, 0, ac, sc).map_values(|p: (u64, Option<u64>)| pair_entry(p, name@)),
{
    let ghost start = old(out)@.map_values(|e: RegEntry| reg_entry_view(e));
    if !(ac == 1 || ac == 2) || sc > 2 {
        assert(reg_pairs_from(v@, 0, ac, sc) =~= Seq::<(u64, Option<u64>)>::empty());
        assert(out@.map_values(|e: RegEntry| reg_entry_view(e)) =~= start + reg_pairs_from(v@, 0, ac, sc).map_values(|p: (u64, Option<u64>)| pair_entry(p, name@)));
        return;
    }
    let step: usize = 4 * (ac as usize + sc as usize);
    let mut off: usize = 0;
    while step <= v.len() - off
        invariant
            ac == 1 || ac == 2,
            sc <= 2,
            step == 4 * (ac + sc),
            off <= v@.len(),
            out@.map_values(|e: RegEntry| reg_entry_view(e)) + reg_pairs_from(v@, off as int, ac, sc).map_values(|p: (u64, Option<u64>)| pair_entry(p, name@))
                == start + reg_pairs_from(v@, 0, ac, sc).map_values(|p: (u64, Option<u64>)| pair_entry(p, name@)),
        decreases v@.len() - off,
    {
        let ghost before = out@.map_values(|e: RegEntry| reg_entry_view(e));
        let address = read_cells(v, off, ac);
        let size_raw: Option<u64> = if sc == 0 {
            None
        } else {
            Some(read_cells(v, off + 4 * (ac as usize), sc))
        };
        assert(size_raw == reg_pairs_from(v@, off as int, ac, sc)[0].1);
        let size: Option<usize> = match size_raw {
            Some(s64) => Some((#[verifier::truncate] (s64 as usize))),
            None => None,
        };
        let address_u = (#[verifier::truncate] (address as usize));
        let entry = RegEntry { address: address_u, size, name: copy_bytes(name) };
        proof {
            let rest = reg_pairs_from(v@, off as int, ac, sc);
            let next = reg_pairs_from(v@, off + step, ac, sc);
            assert(rest == seq![rest[0]] + next);
            assert(rest[0].0 == address);
            assert(entry.address == rest[0].0 as usize);
            assert(entry.size == pair_entry(rest[0], name@).1);
            assert(entry.name@ == name@);
            assert(reg_entry_view(entry) == pair_entry(rest[0], name@));
        }
        out.push(entry);
        proof {
            let rest = reg_pairs_from(v@, off as int, ac, sc);
            let next = reg_pairs_from(v@, off + step, ac, sc);
            assert(rest.map_values(|p: (u64, Option<u64>)| pair_entry(p, name@)) =~= seq![pair_entry(rest[0], name@)] + next.map_values(|p: (u64, Option<u64>)| pair_entry(p, name@)));
            assert(out@.map_values(|e: RegEntry| reg_entry_view(e)) =~= before.push(pair_entry(rest[0], name@)));
        }
        off = off + step;
    }
    assert(reg_pairs_from(v@, off as int, ac, sc) =~= Seq::<(u64, Option<u64>)>::empty());
    assert(reg_pairs_from(v@, off as int, ac, sc).map_values(|p: (u64, Option<u64>)| pair_entry(p, name@)) =~= Seq::empty());
    assert(out@.map_values(|e: RegEntry| reg_entry_view(e)) =~= out@.map_values(|e: RegEntry| reg_entry_view(e))
        + Seq::<(usize, Option<usize>, Seq<u8>)>::empty());
}

/// The register ranges of the devices of a host tree, in the walk's
/// order: for each node that is not disabled, one range per entry of its
/// `reg`, read with its parent's address and size cells, under its name.
pub fn device_reg_entries(nodes: &[crate::fdt::node::FdtNode]) -> (r: Vec<RegEntry>)
    ensures
        r@.map_values(|e: RegEntry| reg_entry_view(e)) == walk_reg_entries(nodes@, nodes@.len() as int),
{
    let mut out: Vec<RegEntry> = Vec::new();
    let mut j: usize = 0;
    assert(out@.map_values(|e: RegEntry| reg_entry_view(e)) =~= walk_reg_entries(nodes@, 0));
    while j < nodes.len()
        invariant
            j <= nodes@.len(),
            out@.map_values(|e: RegEntry| reg_entry_view(e)) == walk_reg_entries(nodes@, j as int),
        decreases nodes@.len() - j,
    {
        let node = &nodes[j];
        let ghost before = out@.map_values(|e: RegEntry| reg_entry_view(e));
        let disabled = match crate::fdt::builder::find_property(node, "status") {
            Some(v) => crate::fdt::builder::value_is_disabled(v.as_slice()),
            None => false,
        };
        if !disabled {
            match crate::fdt::builder::find_property(node, "reg") {
                Some(v) => {
                    let parent = parent_index(nodes, j);
                    let mut ac: u32 = 2;
                    let mut sc: u32 = 2;
                    match parent {
                        Some(p) => {
                            ac = crate::fdt::builder::address_cells(&nodes[p]);
                            sc = crate::fdt::builder::size_cells(&nodes[p]);
                            assert(parent_from(nodes@, nodes@[j as int].level - 1, j - 1) == Some(p as int));
                        },
                        None => {
                            assert(parent_from(nodes@, nodes@[j as int].level - 1, j - 1) is None);
                        },
                    }
                    assert(reg_cells(nodes@, j as int) == (ac, sc));
                    push_reg_pairs(&mut out, v.as_slice(), ac, sc, node.name.as_slice());
                    assert(node_reg_entries(nodes@, j as int) =~= reg_pairs_from(v@, 0, ac, sc).map_values(
                        |p: (u64, Option<u64>)| pair_entry(p, node.name@),
                    ));
                },
                None => {
                    assert(node_reg_entries(nodes@, j as int) =~= Seq::empty());
                },
            }
        } else {
            assert(node_reg_entries(nodes@, j as int) =~= Seq::empty());
        }
        proof {
            assert(out@.map_values(|e: RegEntry| reg_entry_view(e)) =~= before + node_reg_entries(nodes@, j as int));
        }
        j = j + 1;
    }
    out
}

} // verus!
