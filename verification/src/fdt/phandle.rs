//! Phandle references between device tree nodes: which properties hold
//! them, how many cells follow each, and which nodes they point to.
use std::collections::BTreeMap;
use vstd::prelude::*;

use crate::fdt::bytes::{ascii_bytes, bytes_eq, bytes_eq_str, copy_bytes, ends_with_str, is_prefix,
    is_suffix, occurs_in, contains_str, starts_with_str, str_to_bytes};

verus! {

/// The `#*-cells` values of a node, by property name; a later entry for a
/// name replaces an earlier one.
#[derive(Clone, Debug)]
pub struct CellsInfo {
    entries: Vec<(Vec<u8>, u32)>,
}

/// The value of the last entry named `name`.
pub open spec fn cells_lookup(s: Seq<(Seq<u8>, u32)>, name: Seq<u8>) -> Option<u32>
    decreases s.len(),
{
    if s.len() == 0 {
        None
    } else if s.last().0 == name {
        Some(s.last().1)
    } else {
        cells_lookup(s.drop_last(), name)
    }
}

impl View for CellsInfo {
    type V = Seq<(Seq<u8>, u32)>;

    closed spec fn view(&self) -> Seq<(Seq<u8>, u32)> {
        self.entries@.map_values(|e: (Vec<u8>, u32)| (e.0@, e.1))
    }
}

impl CellsInfo {
    /// No value.
    pub fn new() -> (r: Self)
        ensures
            r@ == Seq::<(Seq<u8>, u32)>::empty(),
    {
        let r = CellsInfo { entries: Vec::new() };
        assert(r@ =~= Seq::<(Seq<u8>, u32)>::empty());
        r
    }

    /// Sets the value of `name`.
    pub fn insert(&mut self, name: Vec<u8>, value: u32)
        ensures
            final(self)@ == old(self)@.push((name@, value)),
    {
        self.entries.push((name, value));
        assert(self@ =~= old(self)@.push((name@, value)));
    }

    /// The value of `name`, if it has one.
    pub fn get(&self, name: &[u8]) -> (r: Option<u32>)
        ensures
            r == cells_lookup(self@, name@),
    {
        let ghost full = self@;
        let mut i: usize = self.entries.len();
        assert(full.subrange(0, i as int) =~= full);
        while i > 0
            invariant
                i <= self.entries@.len(),
                full == self@,
                cells_lookup(full, name@) == cells_lookup(full.subrange(0, i as int), name@),
            decreases i,
        {
            let ghost pre = full.subrange(0, i as int);
            assert(pre.last() == (self.entries@[i - 1].0@, self.entries@[i - 1].1));
            if bytes_eq(&self.entries[i - 1].0, name) {
                return Some(self.entries[i - 1].1);
            }
            assert(pre.drop_last() =~= full.subrange(0, i - 1));
            i = i - 1;
        }
        assert(full.subrange(0, 0) =~= Seq::<(Seq<u8>, u32)>::empty());
        None
    }
}

/// The `#*-cells` property that gives the number of cells following each
/// phandle in a property named `prop`, if it is one that has such cells.
pub open spec fn cells_property_for(prop: Seq<u8>) -> Option<Seq<char>> {
    if prop == ascii_bytes("clocks"@) || prop == ascii_bytes("assigned-clocks"@) {
        Some("#clock-cells"@)
    } else if prop == ascii_bytes("resets"@) {
        Some("#reset-cells"@)
    } else if prop == ascii_bytes("power-domains"@) {
        Some("#power-domain-cells"@)
    } else if prop == ascii_bytes("phys"@) {
        Some("#phy-cells"@)
    } else if prop == ascii_bytes("interrupts"@) || prop == ascii_bytes("interrupts-extended"@) {
        Some("#interrupt-cells"@)
    } else if prop == ascii_bytes("gpios"@) {
        Some("#gpio-cells"@)
    } else if is_suffix(ascii_bytes("-gpios"@), prop) || is_suffix(ascii_bytes("-gpio"@), prop) {
        Some("#gpio-cells"@)
    } else if prop == ascii_bytes("dmas"@) {
        Some("#dma-cells"@)
    } else if prop == ascii_bytes("thermal-sensors"@) {
        Some("#thermal-sensor-cells"@)
    } else if prop == ascii_bytes("sound-dai"@) {
        Some("#sound-dai-cells"@)
    } else if prop == ascii_bytes("mboxes"@) {
        Some("#mbox-cells"@)
    } else if prop == ascii_bytes("pwms"@) {
        Some("#pwm-cells"@)
    } else {
        None
    }
}

/// The `#*-cells` property for a property named `prop`.
fn cells_property_name(prop: &[u8]) -> (r: Option<&'static str>)
    ensures
        match (r, cells_property_for(prop@)) {
            (None, None) => true,
            (Some(x), Some(y)) => x@ == y,
            _ => false,
        },
{
    if bytes_eq_str(prop, "clocks") || bytes_eq_str(prop, "assigned-clocks") {
        Some("#clock-cells")
    } else if bytes_eq_str(prop, "resets") {
        Some("#reset-cells")
    } else if bytes_eq_str(prop, "power-domains") {
        Some("#power-domain-cells")
    } else if bytes_eq_str(prop, "phys") {
        Some("#phy-cells")
    } else if bytes_eq_str(prop, "interrupts") || bytes_eq_str(prop, "interrupts-extended") {
        Some("#interrupt-cells")
    } else if bytes_eq_str(prop, "gpios") {
        Some("#gpio-cells")
    } else if ends_with_str(prop, "-gpios") || ends_with_str(prop, "-gpio") {
        Some("#gpio-cells")
    } else if bytes_eq_str(prop, "dmas") {
        Some("#dma-cells")
    } else if bytes_eq_str(prop, "thermal-sensors") {
        Some("#thermal-sensor-cells")
    } else if bytes_eq_str(prop, "sound-dai") {
        Some("#sound-dai-cells")
    } else if bytes_eq_str(prop, "mboxes") {
        Some("#mbox-cells")
    } else if bytes_eq_str(prop, "pwms") {
        Some("#pwm-cells")
    } else {
        None
    }
}

/// The number of cells that follow each phandle in a property named
/// `prop`, given the `#*-cells` values of the node pointed to: 0 for a
/// property that has no such cells or a node that gives no value.
pub open spec fn cells_count_spec(prop: Seq<u8>, cells: Seq<(Seq<u8>, u32)>) -> nat {
    match cells_property_for(prop) {
        None => 0,
        Some(c) => match cells_lookup(cells, ascii_bytes(c)) {
            Some(v) => v as nat,
            None => 0,
        },
    }
}

/// The number of cells that follow each phandle in the property
/// `prop_name` for the node whose `#*-cells` values are `cells_info`.
pub fn get_cells_count_for_property(prop_name: &[u8], cells_info: &CellsInfo) -> (r: usize)
    ensures
        r == cells_count_spec(prop_name@, cells_info@),
{
    match cells_property_name(prop_name) {
        None => 0,
        Some(c) => {
            let key = str_to_bytes(c);
            match cells_info.get(&key) {
                Some(v) => v as usize,
                None => 0,
            }
        },
    }
}

/// Whether `name` is one of the properties listed as holding phandles.
pub open spec fn listed_phandle_property(name: Seq<u8>) -> bool {
    ||| name == ascii_bytes("clocks"@)
    ||| name == ascii_bytes("power-domains"@)
    ||| name == ascii_bytes("phys"@)
    ||| name == ascii_bytes("resets"@)
    ||| name == ascii_bytes("dmas"@)
    ||| name == ascii_bytes("thermal-sensors"@)
    ||| name == ascii_bytes("mboxes"@)
    ||| name == ascii_bytes("assigned-clocks"@)
    ||| name == ascii_bytes("interrupt-parent"@)
    ||| name == ascii_bytes("phy-handle"@)
    ||| name == ascii_bytes("msi-parent"@)
    ||| name == ascii_bytes("memory-region"@)
    ||| name == ascii_bytes("syscon"@)
    ||| name == ascii_bytes("regmap"@)
    ||| name == ascii_bytes("iommus"@)
    ||| name == ascii_bytes("interconnects"@)
    ||| name == ascii_bytes("nvmem-cells"@)
    ||| name == ascii_bytes("sound-dai"@)
    ||| name == ascii_bytes("pinctrl-0"@)
    ||| name == ascii_bytes("pinctrl-1"@)
    ||| name == ascii_bytes("pinctrl-2"@)
    ||| name == ascii_bytes("pinctrl-3"@)
    ||| name == ascii_bytes("pinctrl-4"@)
}

/// Whether the property `name` may hold references to other nodes that a
/// passed-through device depends on.
pub open spec fn phandle_property_spec(name: Seq<u8>) -> bool {
    ||| listed_phandle_property(name)
    ||| is_suffix(ascii_bytes("-supply"@), name)
    ||| name == ascii_bytes("gpios"@)
    ||| is_suffix(ascii_bytes("-gpios"@), name)
    ||| is_suffix(ascii_bytes("-gpio"@), name)
    ||| (occurs_in(ascii_bytes("cells"@), name) && !is_prefix(ascii_bytes("#"@), name)
        && name.len() >= 4)
}

fn is_listed_phandle_property(name: &[u8]) -> (r: bool)
    ensures
        r == listed_phandle_property(name@),
{
    bytes_eq_str(name, "clocks") || bytes_eq_str(name, "power-domains") || bytes_eq_str(name, "phys")
        || bytes_eq_str(name, "resets") || bytes_eq_str(name, "dmas") || bytes_eq_str(
        name,
        "thermal-sensors",
    ) || bytes_eq_str(name, "mboxes") || bytes_eq_str(name, "assigned-clocks") || bytes_eq_str(
        name,
        "interrupt-parent",
    ) || bytes_eq_str(name, "phy-handle") || bytes_eq_str(name, "msi-parent") || bytes_eq_str(
        name,
        "memory-region",
    ) || bytes_eq_str(name, "syscon") || bytes_eq_str(name, "regmap") || bytes_eq_str(
        name,
        "iommus",
    ) || bytes_eq_str(name, "interconnects") || bytes_eq_str(name, "nvmem-cells") || bytes_eq_str(
        name,
        "sound-dai",
    ) || bytes_eq_str(name, "pinctrl-0") || bytes_eq_str(name, "pinctrl-1") || bytes_eq_str(
        name,
        "pinctrl-2",
    ) || bytes_eq_str(name, "pinctrl-3") || bytes_eq_str(name, "pinctrl-4")
}

/// Classifies the properties of device nodes.
pub struct DevicePropertyClassifier;

impl DevicePropertyClassifier {
    /// Whether the property `prop_name` may hold references to nodes that
    /// a device depends on.
    pub fn is_phandle_property(prop_name: &[u8]) -> (r: bool)
        ensures
            r == phandle_property_spec(prop_name@),
    {
        is_listed_phandle_property(prop_name) || ends_with_str(prop_name, "-supply")
            || bytes_eq_str(prop_name, "gpios") || ends_with_str(prop_name, "-gpios")
            || ends_with_str(prop_name, "-gpio") || (contains_str(prop_name, "cells")
            && !starts_with_str(prop_name, "#") && prop_name.len() >= 4)
    }
}

} // verus!

verus! {

broadcast use {vstd::laws_cmp::group_laws_cmp, vstd::std_specs::btree::group_btree_axioms};

/// A node that phandles point to: its full path and its `#*-cells` values.
#[derive(Clone, Debug)]
pub struct PhandleTarget {
    pub path: Vec<u8>,
    pub cells: CellsInfo,
}

/// The nodes of a tree by phandle.
pub struct PhandleMap {
    map: BTreeMap<u32, PhandleTarget>,
}

/// The plain value of a target: its path and its cells values.
pub open spec fn target_view(t: PhandleTarget) -> (Seq<u8>, Seq<(Seq<u8>, u32)>) {
    (t.path@, t.cells@)
}

impl View for PhandleMap {
    type V = Map<u32, (Seq<u8>, Seq<(Seq<u8>, u32)>)>;

    closed spec fn view(&self) -> Map<u32, (Seq<u8>, Seq<(Seq<u8>, u32)>)> {
        self.map@.map_values(|t: PhandleTarget| target_view(t))
    }
}

impl PhandleMap {
    /// A map with no node.
    pub fn new() -> (r: Self)
        ensures
            r@ == Map::<u32, (Seq<u8>, Seq<(Seq<u8>, u32)>)>::empty(),
    {
        let r = PhandleMap { map: BTreeMap::new() };
        assert(r@ =~= Map::<u32, (Seq<u8>, Seq<(Seq<u8>, u32)>)>::empty());
        r
    }

    /// Records the node `target` under `phandle`, replacing any other.
    pub fn insert(&mut self, phandle: u32, target: PhandleTarget)
        ensures
            final(self)@ == old(self)@.insert(phandle, target_view(target)),
    {
        self.map.insert(phandle, target);
        assert(self@ =~= old(self)@.insert(phandle, target_view(target)));
    }

    /// The node recorded under `phandle`.
    pub fn get(&self, phandle: u32) -> (r: Option<&PhandleTarget>)
        ensures
            match r {
                Some(t) => self@.contains_key(phandle) && self@[phandle] == target_view(*t),
                None => !self@.contains_key(phandle),
            },
    {
        self.map.get(&phandle)
    }
}

/// The big-endian value of four bytes.
pub open spec fn be_u32(a: u8, b: u8, c: u8, d: u8) -> u32 {
    (a as int * 16777216 + b as int * 65536 + c as int * 256 + d as int) as u32
}

/// The big-endian 32-bit cells of `data`, ignoring a trailing part shorter
/// than a cell.
pub open spec fn be_cells(data: Seq<u8>) -> Seq<u32> {
    Seq::new(
        data.len() / 4,
        |i: int| be_u32(data[4 * i], data[4 * i + 1], data[4 * i + 2], data[4 * i + 3]),
    )
}

/// The phandle references found in `vals` from cell `i` on: a cell that is
/// a known phandle is taken with the cells that follow it, as many as the
/// node it points to asks for a property named `name`; a cell that is not
/// a known phandle is skipped; the scan stops at a phandle that lacks its
/// cells.
pub open spec fn refs_from(
    vals: Seq<u32>,
    i: int,
    name: Seq<u8>,
    map: Map<u32, (Seq<u8>, Seq<(Seq<u8>, u32)>)>,
) -> Seq<(u32, Seq<u32>)>
    decreases vals.len() - i,
{
    if i < 0 || i >= vals.len() {
        Seq::empty()
    } else if map.contains_key(vals[i]) {
        let c = cells_count_spec(name, map[vals[i]].1);
        if i + c < vals.len() {
            seq![(vals[i], vals.subrange(i + 1, i + 1 + c))] + refs_from(vals, i + c + 1, name, map)
        } else {
            Seq::empty()
        }
    } else {
        refs_from(vals, i + 1, name, map)
    }
}

/// The phandle references of a property with value `data` and name `name`:
/// none unless the value is a non-empty whole number of cells.
pub open spec fn phandle_refs_spec(
    data: Seq<u8>,
    name: Seq<u8>,
    map: Map<u32, (Seq<u8>, Seq<(Seq<u8>, u32)>)>,
) -> Seq<(u32, Seq<u32>)> {
    if data.len() == 0 || data.len() % 4 != 0 {
        Seq::empty()
    } else {
        refs_from(be_cells(data), 0, name, map)
    }
}

/// The big-endian cells of `data`.
fn read_cells(data: &[u8]) -> (r: Vec<u32>)
    ensures
        r@ == be_cells(data@),
{
    let dlen = data.len();
    let n = dlen / 4;
    let mut out: Vec<u32> = Vec::new();
    let mut i: usize = 0;
    assert(4 * n <= data@.len()) by (nonlinear_arith)
        requires
            n == data@.len() / 4,
    ;
    while i < n
        invariant
            n == data@.len() / 4,
            dlen == data@.len(),
            4 * n <= data@.len(),
            i <= n,
            out@ == be_cells(data@).subrange(0, i as int),
        decreases n - i,
    {
        assert(4 * i + 3 < data@.len()) by (nonlinear_arith)
            requires
                i < n,
                4 * n <= data@.len(),
        ;
        let a = data[4 * i] as u32;
        let b = data[4 * i + 1] as u32;
        let c = data[4 * i + 2] as u32;
        let d = data[4 * i + 3] as u32;
        let v = a * 16777216 + b * 65536 + c * 256 + d;
        out.push(v);
        i = i + 1;
        assert(out@ =~= be_cells(data@).subrange(0, i as int));
    }
    assert(be_cells(data@).subrange(0, i as int) =~= be_cells(data@));
    out
}

/// The phandle references in a property, each with the cells that follow
/// it, as many as the node it points to asks for.
pub fn parse_phandle_property_with_cells(
    prop_data: &[u8],
    prop_name: &[u8],
    phandle_map: &PhandleMap,
) -> (r: Vec<(u32, Vec<u32>)>)
    ensures
        r@.map_values(|e: (u32, Vec<u32>)| (e.0, e.1@)) == phandle_refs_spec(
            prop_data@,
            prop_name@,
            phandle_map@,
        ),
{
    let mut results: Vec<(u32, Vec<u32>)> = Vec::new();
    if prop_data.len() == 0 || prop_data.len() % 4 != 0 {
        assert(results@.map_values(|e: (u32, Vec<u32>)| (e.0, e.1@)) =~= Seq::<
            (u32, Seq<u32>),
        >::empty());
        return results;
    }
    let vals = read_cells(prop_data);
    let ghost target = refs_from(vals@, 0, prop_name@, phandle_map@);
    let mut i: usize = 0;
    while i < vals.len()
        invariant
            vals@ == be_cells(prop_data@),
            prop_data@.len() != 0 && prop_data@.len() % 4 == 0,
            i <= vals@.len(),
            target == refs_from(vals@, 0, prop_name@, phandle_map@),
            results@.map_values(|e: (u32, Vec<u32>)| (e.0, e.1@)) + refs_from(
                vals@,
                i as int,
                prop_name@,
                phandle_map@,
            ) == target,
        decreases vals@.len() - i,
    {
        let ghost before = results@.map_values(|e: (u32, Vec<u32>)| (e.0, e.1@));
        let potential = vals[i];
        match phandle_map.get(potential) {
            Some(t) => {
                let cells_count = get_cells_count_for_property(prop_name, &t.cells);
                if cells_count < vals.len() - i {
                    let mut specs: Vec<u32> = Vec::new();
                    let mut j: usize = 0;
                    let vlen = vals.len();
                    while j < cells_count
                        invariant
                            vlen == vals@.len(),
                            j <= cells_count,
                            i + cells_count < vals@.len(),
                            specs@ == vals@.subrange(i + 1, i + 1 + j),
                        decreases cells_count - j,
                    {
                        specs.push(vals[i + 1 + j]);
                        j = j + 1;
                        assert(specs@ =~= vals@.subrange(i + 1, i + 1 + j));
                    }
                    results.push((potential, specs));
                    proof {
                        assert(results@.map_values(|e: (u32, Vec<u32>)| (e.0, e.1@)) =~= before.push(
                            (potential, vals@.subrange(i + 1, i + 1 + cells_count)),
                        ));
                        assert(before.push((potential, vals@.subrange(i + 1, i + 1 + cells_count)))
                            + refs_from(vals@, i + cells_count + 1, prop_name@, phandle_map@)
                            =~= before + refs_from(vals@, i as int, prop_name@, phandle_map@));
                    }
                    i = i + cells_count + 1;
                } else {
                    proof {
                        assert(refs_from(vals@, i as int, prop_name@, phandle_map@)
                            =~= Seq::<(u32, Seq<u32>)>::empty());
                        assert(before =~= target);
                        assert(phandle_refs_spec(prop_data@, prop_name@, phandle_map@) == target);
                    }
                    return results;
                }
            },
            None => {
                i = i + 1;
            },
        }
    }
    proof {
        assert(refs_from(vals@, i as int, prop_name@, phandle_map@) =~= Seq::<(u32, Seq<u32>)>::empty());
        assert(results@.map_values(|e: (u32, Vec<u32>)| (e.0, e.1@)) =~= target);
    }
    results
}

} // verus!

verus! {

/// The paths of the nodes that the references point to, in order.
pub open spec fn paths_of_refs(
    refs: Seq<(u32, Seq<u32>)>,
    map: Map<u32, (Seq<u8>, Seq<(Seq<u8>, u32)>)>,
) -> Seq<Seq<u8>>
    decreases refs.len(),
{
    if refs.len() == 0 {
        Seq::empty()
    } else {
        let rest = paths_of_refs(refs.drop_last(), map);
        if map.contains_key(refs.last().0) {
            rest.push(map[refs.last().0].0)
        } else {
            rest
        }
    }
}

proof fn lemma_refs_from_known(
    vals: Seq<u32>,
    i: int,
    name: Seq<u8>,
    map: Map<u32, (Seq<u8>, Seq<(Seq<u8>, u32)>)>,
)
    ensures
        forall|k: int|
            0 <= k < refs_from(vals, i, name, map).len() ==> map.contains_key(
                (#[trigger] refs_from(vals, i, name, map)[k]).0,
            ),
    decreases vals.len() - i,
{
    if 0 <= i < vals.len() {
        if map.contains_key(vals[i]) {
            let c = cells_count_spec(name, map[vals[i]].1);
            if i + c < vals.len() {
                lemma_refs_from_known(vals, i + c + 1, name, map);
                let rest = refs_from(vals, i + c + 1, name, map);
                let all = seq![(vals[i], vals.subrange(i + 1, i + 1 + c))] + rest;
                assert(refs_from(vals, i, name, map) == all);
                assert forall|k: int| 0 <= k < all.len() implies map.contains_key((#[trigger] all[k]).0) by {
                    if k > 0 {
                        assert(all[k] == rest[k - 1]);
                    }
                }
            }
        } else {
            lemma_refs_from_known(vals, i + 1, name, map);
            assert(refs_from(vals, i, name, map) == refs_from(vals, i + 1, name, map));
        }
    }
}

proof fn lemma_paths_of_known_refs(refs: Seq<(u32, Seq<u32>)>, map: Map<u32, (Seq<u8>, Seq<(Seq<u8>, u32)>)>)
    requires
        forall|k: int| 0 <= k < refs.len() ==> map.contains_key((#[trigger] refs[k]).0),
    ensures
        paths_of_refs(refs, map).len() == refs.len(),
        forall|k: int| 0 <= k < refs.len() ==> #[trigger] paths_of_refs(refs, map)[k] == map[refs[k].0].0,
    decreases refs.len(),
{
    if refs.len() > 0 {
        let init = refs.drop_last();
        assert forall|k: int| 0 <= k < init.len() implies map.contains_key((#[trigger] init[k]).0) by {
            assert(init[k] == refs[k]);
        }
        lemma_paths_of_known_refs(init, map);
        assert(map.contains_key(refs[refs.len() - 1].0));
    }
}

/// Every reference a property makes names a node the phandle map knows,
/// so the paths it refers to are one per reference, in order: the path
/// recorded for each reference's phandle.
pub proof fn lemma_one_path_per_reference(
    data: Seq<u8>,
    name: Seq<u8>,
    map: Map<u32, (Seq<u8>, Seq<(Seq<u8>, u32)>)>,
)
    ensures
        paths_of_refs(phandle_refs_spec(data, name, map), map).len() == phandle_refs_spec(data, name, map).len(),
        forall|k: int|
            0 <= k < phandle_refs_spec(data, name, map).len() ==> #[trigger] paths_of_refs(
                phandle_refs_spec(data, name, map),
                map,
            )[k] == map[phandle_refs_spec(data, name, map)[k].0].0,
{
    let refs = phandle_refs_spec(data, name, map);
    if !(data.len() == 0 || data.len() % 4 != 0) {
        lemma_refs_from_known(be_cells(data), 0, name, map);
    }
    lemma_paths_of_known_refs(refs, map);
}

/// The full paths of the nodes that the property `prop_name`, with value
/// `prop_data`, refers to, in order.
pub fn parse_phandle_property(prop_data: &[u8], prop_name: &[u8], phandle_map: &PhandleMap) -> (r:
    Vec<Vec<u8>>)
    ensures
        r@.map_values(|v: Vec<u8>| v@) == paths_of_refs(
            phandle_refs_spec(prop_data@, prop_name@, phandle_map@),
            phandle_map@,
        ),
{
    let refs = parse_phandle_property_with_cells(prop_data, prop_name, phandle_map);
    let ghost rv = refs@.map_values(|e: (u32, Vec<u32>)| (e.0, e.1@));
    let mut deps: Vec<Vec<u8>> = Vec::new();
    let mut i: usize = 0;
    while i < refs.len()
        invariant
            i <= refs@.len(),
            rv == refs@.map_values(|e: (u32, Vec<u32>)| (e.0, e.1@)),
            deps@.map_values(|v: Vec<u8>| v@) == paths_of_refs(rv.subrange(0, i as int), phandle_map@),
        decreases refs@.len() - i,
    {
        proof {
            assert(rv.subrange(0, i + 1).drop_last() =~= rv.subrange(0, i as int));
        }
        let ghost before = deps@.map_values(|v: Vec<u8>| v@);
        match phandle_map.get(refs[i].0) {
            Some(t) => {
                deps.push(copy_bytes(&t.path));
                assert(deps@.map_values(|v: Vec<u8>| v@) =~= before.push(t.path@));
            },
            None => {},
        }
        i = i + 1;
    }
    proof {
        assert(rv.subrange(0, i as int) =~= rv);
    }
    deps
}

/// Whether `name` is `phandle` or `linux,phandle`.
pub open spec fn is_phandle_name(name: Seq<u8>) -> bool {
    name == ascii_bytes("phandle"@) || name == ascii_bytes("linux,phandle"@)
}

/// Whether `name` is one of the `#*-cells` properties recorded for nodes
/// that phandles point to.
pub open spec fn is_cells_name(name: Seq<u8>) -> bool {
    ||| name == ascii_bytes("#address-cells"@)
    ||| name == ascii_bytes("#size-cells"@)
    ||| name == ascii_bytes("#clock-cells"@)
    ||| name == ascii_bytes("#reset-cells"@)
    ||| name == ascii_bytes("#gpio-cells"@)
    ||| name == ascii_bytes("#interrupt-cells"@)
    ||| name == ascii_bytes("#power-domain-cells"@)
    ||| name == ascii_bytes("#thermal-sensor-cells"@)
    ||| name == ascii_bytes("#phy-cells"@)
    ||| name == ascii_bytes("#dma-cells"@)
    ||| name == ascii_bytes("#sound-dai-cells"@)
    ||| name == ascii_bytes("#mbox-cells"@)
    ||| name == ascii_bytes("#pwm-cells"@)
    ||| name == ascii_bytes("#iommu-cells"@)
}

fn is_cells_name_exec(name: &[u8]) -> (r: bool)
    ensures
        r == is_cells_name(name@),
{
    bytes_eq_str(name, "#address-cells") || bytes_eq_str(name, "#size-cells") || bytes_eq_str(
        name,
        "#clock-cells",
    ) || bytes_eq_str(name, "#reset-cells") || bytes_eq_str(name, "#gpio-cells") || bytes_eq_str(
        name,
        "#interrupt-cells",
    ) || bytes_eq_str(name, "#power-domain-cells") || bytes_eq_str(name, "#thermal-sensor-cells")
        || bytes_eq_str(name, "#phy-cells") || bytes_eq_str(name, "#dma-cells") || bytes_eq_str(
        name,
        "#sound-dai-cells",
    ) || bytes_eq_str(name, "#mbox-cells") || bytes_eq_str(name, "#pwm-cells") || bytes_eq_str(
        name,
        "#iommu-cells",
    )
}

/// The first cell of a property value, big-endian.
pub open spec fn first_cell(v: Seq<u8>) -> u32 {
    be_u32(v[0], v[1], v[2], v[3])
}

/// The phandle that a list of properties gives its node: the first cell of
/// the last `phandle` or `linux,phandle` property.
pub open spec fn props_phandle(props: Seq<crate::fdt::node::FdtProperty>) -> Option<u32>
    decreases props.len(),
{
    if props.len() == 0 {
        None
    } else if is_phandle_name(props.last().name@) {
        Some(first_cell(props.last().value@))
    } else {
        props_phandle(props.drop_last())
    }
}

/// The `#*-cells` values of a list of properties, in order.
pub open spec fn props_cells(props: Seq<crate::fdt::node::FdtProperty>) -> Seq<(Seq<u8>, u32)>
    decreases props.len(),
{
    if props.len() == 0 {
        Seq::empty()
    } else {
        let rest = props_cells(props.drop_last());
        if is_phandle_name(props.last().name@) {
            rest
        } else if is_cells_name(props.last().name@) {
            rest.push((props.last().name@, first_cell(props.last().value@)))
        } else {
            rest
        }
    }
}

/// Whether every `phandle` and `#*-cells` property of the nodes holds at
/// least one cell.
pub open spec fn cell_props_readable(nodes: Seq<crate::fdt::node::FdtNode>) -> bool {
    forall|i: int, j: int|
        0 <= i < nodes.len() && 0 <= j < nodes[i].properties@.len() ==> {
            let p = #[trigger] nodes[i].properties@[j];
            (is_phandle_name(p.name@) || is_cells_name(p.name@)) ==> p.value@.len() >= 4
        }
}

/// The phandle map of the first `n` nodes of a walk whose paths are
/// `paths`: each node with a phandle is recorded with its path and cells
/// values, a later node replacing an earlier one with the same phandle.
pub open spec fn phandle_map_after(
    nodes: Seq<crate::fdt::node::FdtNode>,
    paths: Seq<Seq<u8>>,
    n: int,
) -> Map<u32, (Seq<u8>, Seq<(Seq<u8>, u32)>)>
    decreases n,
{
    if n <= 0 {
        Map::empty()
    } else {
        let m = phandle_map_after(nodes, paths, n - 1);
        match props_phandle(nodes[n - 1].properties@) {
            Some(ph) => m.insert(ph, (paths[n - 1], props_cells(nodes[n - 1].properties@))),
            None => m,
        }
    }
}

/// The first cell of a value of at least four bytes.
fn read_first_cell(v: &[u8]) -> (r: u32)
    requires
        v@.len() >= 4,
    ensures
        r == first_cell(v@),
{
    (v[0] as u32) * 16777216 + (v[1] as u32) * 65536 + (v[2] as u32) * 256 + (v[3] as u32)
}

/// The phandle map of a tree: every node with a phandle, by phandle, with
/// its full path and its `#*-cells` values.
pub fn build_phandle_map(all_nodes: &[crate::fdt::node::FdtNode]) -> (r: PhandleMap)
    requires
        crate::fdt::path::levels_valid(all_nodes@, all_nodes@.len() as int),
        cell_props_readable(all_nodes@),
    ensures
        r@ == phandle_map_after(
            all_nodes@,
            Seq::new(all_nodes@.len(), |i: int| crate::fdt::path::node_path(all_nodes@, i)),
            all_nodes@.len() as int,
        ),
{
    let paths = crate::fdt::path::all_node_paths(all_nodes);
    let ghost pv = Seq::new(all_nodes@.len(), |i: int| crate::fdt::path::node_path(all_nodes@, i));
    let mut map = PhandleMap::new();
    let mut i: usize = 0;
    while i < all_nodes.len()
        invariant
            i <= all_nodes@.len(),
            paths@.len() == all_nodes@.len(),
            forall|k: int| 0 <= k < paths@.len() ==> (#[trigger] paths@[k])@ == pv[k],
            pv.len() == all_nodes@.len(),
            cell_props_readable(all_nodes@),
            map@ == phandle_map_after(all_nodes@, pv, i as int),
        decreases all_nodes@.len() - i,
    {
        let node = &all_nodes[i];
        let mut phandle: Option<u32> = None;
        let mut cells = CellsInfo::new();
        let mut j: usize = 0;
        while j < node.properties.len()
            invariant
                j <= node.properties@.len(),
                i < all_nodes@.len(),
                *node == all_nodes@[i as int],
                cell_props_readable(all_nodes@),
                phandle == props_phandle(node.properties@.subrange(0, j as int)),
                cells@ == props_cells(node.properties@.subrange(0, j as int)),
            decreases node.properties@.len() - j,
        {
            let prop = &node.properties[j];
            proof {
                assert(node.properties@.subrange(0, j + 1).drop_last() =~= node.properties@.subrange(
                    0,
                    j as int,
                ));
                assert(all_nodes@[i as int].properties@[j as int] == *prop);
            }
            if bytes_eq_str(&prop.name, "phandle") || bytes_eq_str(&prop.name, "linux,phandle") {
                phandle = Some(read_first_cell(&prop.value));
            } else if is_cells_name_exec(&prop.name) {
                cells.insert(copy_bytes(&prop.name), read_first_cell(&prop.value));
            }
            j = j + 1;
        }
        proof {
            assert(node.properties@.subrange(0, j as int) =~= node.properties@);
        }
        match phandle {
            Some(ph) => {
                map.insert(ph, PhandleTarget { path: copy_bytes(&paths[i]), cells });
            },
            None => {},
        }
        i = i + 1;
    }
    map
}

} // verus!
