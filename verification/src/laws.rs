//! What the device-tree and run-loop decisions are for, stated over all
//! inputs.
use vstd::prelude::*;

use crate::fdt::builder::chosen_props;
use crate::fdt::bytes::{ascii_bytes, is_prefix, is_suffix, root_path};
use crate::fdt::passthrough::{prop_deps, props_deps, PhandleMapView};
use crate::fdt::path::{node_action_spec, NodeAction};
use crate::fdt::phandle::{be_cells, cells_count_spec, cells_lookup, phandle_property_spec, phandle_refs_spec};
use crate::vm::exit::{loop_action_spec, run_step_spec, ExitReason, RunStep, VcpuLoopAction};

verus! {

/// Every property whose name ends in `-gpios` refers to GPIO controllers
/// through phandles.
pub proof fn lemma_gpios_are_phandle_properties(name: Seq<u8>)
    requires
        is_suffix(ascii_bytes("-gpios"@), name),
    ensures
        phandle_property_spec(name),
{
}

/// A device property `name = <ph ...>` whose name ends in `-gpios`, where
/// `ph` is the phandle of a known node and the value holds the cells that
/// node asks for, makes that node a dependency of the device: the first
/// path it refers to is the node's.
pub proof fn lemma_gpios_reference_is_dependency(name: Seq<u8>, value: Seq<u8>, map: PhandleMapView)
    requires
        is_suffix(ascii_bytes("-gpios"@), name),
        value.len() > 0,
        value.len() % 4 == 0,
        map.contains_key(be_cells(value)[0]),
        cells_count_spec(name, map[be_cells(value)[0]].1) < be_cells(value).len(),
    ensures
        prop_deps((name, value), map).len() > 0,
        prop_deps((name, value), map)[0] == map[be_cells(value)[0]].0,
{
    let vals = be_cells(value);
    assert(vals.len() > 0) by {
        assert(value.len() / 4 > 0);
    }
    crate::fdt::phandle::lemma_one_path_per_reference(value, name, map);
    let refs = phandle_refs_spec(value, name, map);
    assert(refs.len() > 0 && refs[0].0 == vals[0]);
}

/// A dependency that one property of a device gives is a dependency of the
/// device.
pub proof fn lemma_prop_deps_in_props_deps(
    props: Seq<(Seq<u8>, Seq<u8>)>,
    k: int,
    map: PhandleMapView,
    x: Seq<u8>,
)
    requires
        0 <= k < props.len(),
        prop_deps(props[k], map).contains(x),
    ensures
        props_deps(props, map).contains(x),
    decreases props.len(),
{
    if k < props.len() - 1 {
        assert(props.drop_last()[k] == props[k]);
        lemma_prop_deps_in_props_deps(props.drop_last(), k, map, x);
        let i = choose|i: int| 0 <= i < props_deps(props.drop_last(), map).len() && props_deps(props.drop_last(), map)[i] == x;
        assert((props_deps(props.drop_last(), map) + prop_deps(props.last(), map))[i] == x);
    } else {
        let i = choose|i: int| 0 <= i < prop_deps(props[k], map).len() && prop_deps(props[k], map)[i] == x;
        let pre = props_deps(props.drop_last(), map);
        assert((pre + prop_deps(props.last(), map))[pre.len() + i] == x);
    }
}

/// A `clocks` reference is a phandle followed by exactly as many cells as
/// the clock provider's `#clock-cells` gives (none when it gives none).
pub proof fn lemma_clock_reference_cells(data: Seq<u8>, map: PhandleMapView)
    requires
        data.len() > 0,
        data.len() % 4 == 0,
        map.contains_key(be_cells(data)[0]),
        (match cells_lookup(map[be_cells(data)[0]].1, ascii_bytes("#clock-cells"@)) {
            Some(v) => v as int,
            None => 0,
        }) < be_cells(data).len(),
    ensures
        ({
            let vals = be_cells(data);
            let n = match cells_lookup(map[vals[0]].1, ascii_bytes("#clock-cells"@)) {
                Some(v) => v as int,
                None => 0,
            };
            let refs = phandle_refs_spec(data, ascii_bytes("clocks"@), map);
            refs.len() > 0 && refs[0] == (vals[0], vals.subrange(1, 1 + n))
        }),
{
    let vals = be_cells(data);
    assert(vals.len() > 0) by {
        assert(data.len() / 4 > 0);
    }
}

proof fn lemma_without_prop_drops(props: Seq<(Seq<u8>, Seq<u8>)>, name: Seq<u8>)
    ensures
        forall|i: int|
            0 <= i < crate::fdt::builder::without_prop(props, name).len() ==> (#[trigger] crate::fdt::builder::without_prop(
                props,
                name,
            )[i]).0 != name && props.contains(crate::fdt::builder::without_prop(props, name)[i]),
    decreases props.len(),
{
    if props.len() > 0 {
        lemma_without_prop_drops(props.drop_last(), name);
        let w = crate::fdt::builder::without_prop(props.drop_last(), name);
        assert forall|i: int| 0 <= i < w.len() implies props.contains(#[trigger] w[i]) by {
            let k = choose|k: int| 0 <= k < props.drop_last().len() && props.drop_last()[k] == w[i];
            assert(props[k] == w[i]);
        }
        if props.last().0 != name {
            assert(props[props.len() - 1] == props.last());
        }
    }
}

/// Without a ramdisk, the guest's `/chosen` tells of none: after the edit
/// it holds no `linux,initrd-start` and no `linux,initrd-end` property,
/// whatever the host's held.
pub proof fn lemma_no_ramdisk_no_initrd_bounds(props: Seq<(Seq<u8>, Seq<u8>)>, ac: u32)
    ensures
        forall|i: int|
            0 <= i < chosen_props(props, None, ac).len() ==> (#[trigger] chosen_props(props, None, ac)[i]).0
                != ascii_bytes("linux,initrd-start"@) && chosen_props(props, None, ac)[i].0 != ascii_bytes(
                "linux,initrd-end"@,
            ),
{
    reveal_strlit("linux,initrd-start");
    reveal_strlit("linux,initrd-end");
    reveal_strlit("bootargs");
    reveal_strlit("stdout-path");
    let start_name = ascii_bytes("linux,initrd-start"@);
    let end_name = ascii_bytes("linux,initrd-end"@);
    let p0 = crate::fdt::builder::without_prop(props, start_name);
    let p1 = crate::fdt::builder::without_prop(p0, end_name);
    lemma_without_prop_drops(props, start_name);
    lemma_without_prop_drops(p0, end_name);
    assert forall|i: int| 0 <= i < p1.len() implies (#[trigger] p1[i]).0 != start_name && p1[i].0 != end_name by {
        let k = choose|k: int| 0 <= k < p0.len() && p0[k] == p1[i];
    }
    assert(ascii_bytes("bootargs"@).len() != start_name.len());
    assert(ascii_bytes("bootargs"@).len() != end_name.len());
    assert(ascii_bytes("stdout-path"@).len() != start_name.len());
    assert(ascii_bytes("stdout-path"@).len() != end_name.len());
    let r = chosen_props(props, None, ac);
    assert forall|i: int| 0 <= i < r.len() implies (#[trigger] r[i]).0 != start_name && r[i].0 != end_name by {
        if i >= p1.len() {
            assert(r[i].0 == ascii_bytes("bootargs"@) || r[i].0 == ascii_bytes("stdout-path"@));
        } else {
            assert(r[i] == p1[i]);
        }
    }
}

/// The `/cpus` node and every node under it are CPU nodes, unless the node
/// is the root or a memory node.
pub proof fn lemma_cpus_subtree_is_cpu_node(name: Seq<u8>, path: Seq<u8>, level: usize, names: Seq<Seq<u8>>)
    requires
        name != root_path(),
        !is_prefix(ascii_bytes("memory"@), name),
        path == ascii_bytes("/cpus"@) || is_prefix(ascii_bytes("/cpus/"@), path),
    ensures
        node_action_spec(name, path, level, names) == NodeAction::CpuNode,
{
    reveal_strlit("/cpus");
    reveal_strlit("/cpus/");
    let p = ascii_bytes("/cpus"@);
    let q = ascii_bytes("/cpus/"@);
    assert(p.len() == 5 && q.len() == 6);
    assert(q.subrange(0, p.len() as int) =~= p);
    if path == p {
        assert(path.subrange(0, p.len() as int) =~= p);
    } else {
        assert(path.subrange(0, q.len() as int) == q);
        assert(path.subrange(0, p.len() as int) =~= path.subrange(0, q.len() as int).subrange(0, p.len() as int));
    }
    assert(is_prefix(p, path));
}

/// Every emulated device access (an MMIO, I/O port or system register read
/// or write) is served and the guest entered again, whatever became of a
/// stage-2 fault.
pub proof fn lemma_device_exits_reenter(reason: ExitReason, fault_handled: bool)
    requires
        reason is MmioRead || reason is MmioWrite || reason is IoRead || reason is IoWrite
            || reason is SysRegRead || reason is SysRegWrite,
    ensures
        run_step_spec(reason) == RunStep::Device,
        loop_action_spec(reason, fault_handled) == VcpuLoopAction::Reenter,
{
}

} // verus!
