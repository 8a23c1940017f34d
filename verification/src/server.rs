//! The address space of a simulated PLC's OPC-UA server: which nodes it
//! registers, in which device folders, and which values it pushes to them on
//! each tick.
use vstd::prelude::*;
use crate::data::{DataType, DataTypeView, DeepCopy, views};
use crate::schema::{DeviceMetricView, PlcConfig, PlcConfigView};
use crate::resolved::ResolvedDeviceView;
use crate::handle::{PlantConfigHandle, live_field};
use crate::plant::{lists_device, plc_lists_device, plc_reads, read_default, node_id};
use crate::strmap::StrMap;
use crate::text::{concat2, same_text, to_lowercase, unicode_lowercase, chars_of, u64_text, decimal, all_ascii, ascii_lower};

verus! {

/// The string part of a node id: `{plc_name}.{device_id}.{metric}`.
pub open spec fn node_path(plc_name: Seq<char>, device_id: Seq<char>, metric: Seq<char>) -> Seq<char> {
    plc_name + "."@ + device_id + "."@ + metric
}

/// One variable node a PLC server registers for a device metric.
#[derive(Clone, Debug)]
pub struct NodeSpec {
    pub device_id: String,
    pub metric_name: String,
    pub node_path: String,
    pub initial_value: DataType,
}

pub struct NodeSpecView {
    pub device_id: Seq<char>,
    pub metric_name: Seq<char>,
    pub node_path: Seq<char>,
    pub initial_value: DataTypeView,
}

impl View for NodeSpec {
    type V = NodeSpecView;

    open spec fn view(&self) -> NodeSpecView {
        NodeSpecView {
            device_id: self.device_id@,
            metric_name: self.metric_name@,
            node_path: self.node_path@,
            initial_value: self.initial_value@,
        }
    }
}

impl DeepCopy for NodeSpec {
    fn deep_copy(&self) -> (r: NodeSpec) {
        NodeSpec {
            device_id: self.device_id.clone(),
            metric_name: self.metric_name.clone(),
            node_path: self.node_path.clone(),
            initial_value: self.initial_value.deep_copy(),
        }
    }
}

/// The node of one metric of a device on the PLC named `plc_name`.
pub open spec fn metric_spec(plc_name: Seq<char>, device_id: Seq<char>, m: DeviceMetricView) -> NodeSpecView {
    NodeSpecView {
        device_id: device_id,
        metric_name: m.name,
        node_path: node_path(plc_name, device_id, m.name),
        initial_value: read_default(m),
    }
}

/// The nodes a PLC server registers: for each resolved device the PLC lists,
/// in order, one node per metric.
pub open spec fn plc_specs(plc: PlcConfigView, devs: Seq<ResolvedDeviceView>) -> Seq<NodeSpecView>
    decreases devs.len(),
{
    if devs.len() == 0 {
        Seq::empty()
    } else {
        plc_specs(plc, devs.drop_last()) + if lists_device(plc, devs.last().config.device_id) {
            devs.last().type_def.metrics.map_values(|m: DeviceMetricView| metric_spec(plc.name, devs.last().config.device_id, m))
        } else {
            Seq::empty()
        }
    }
}

/// The nodes the server of `plc` registers (see `plc_specs`).
pub fn collect_node_specs(handle: &PlantConfigHandle, plc: &PlcConfig) -> (r: Vec<NodeSpec>)
    ensures
        views(r@) == plc_specs(plc@, handle@.devices),
{
    let devices = handle.resolved_devices();
    let ghost dv = views(devices@);
    let mut out: Vec<NodeSpec> = Vec::new();
    assert(views(out@) =~= plc_specs(plc@, dv.take(0)));
    let mut i: usize = 0;
    while i < devices.len()
        invariant
            dv == views(devices@),
            i <= devices.len(),
            views(out@) == plc_specs(plc@, dv.take(i as int)),
        decreases devices.len() - i,
    {
        assert(dv.take(i + 1).drop_last() =~= dv.take(i as int));
        let d = &devices[i];
        assert(d@ == dv[i as int]);
        let ghost before = views(out@);
        if plc_lists_device(plc, d.config.device_id.as_str()) {
            let metrics = &d.type_def.metrics;
            let ghost all = d@.type_def.metrics.map_values(|m: DeviceMetricView| metric_spec(plc@.name, d@.config.device_id, m));
            let mut k: usize = 0;
            while k < metrics.len()
                invariant
                    metrics@ == d.type_def.metrics@,
                    all == d@.type_def.metrics.map_values(|m: DeviceMetricView| metric_spec(plc@.name, d@.config.device_id, m)),
                    all.len() == metrics.len(),
                    k <= metrics.len(),
                    views(out@) == before + all.take(k as int),
                decreases metrics.len() - k,
            {
                let m = &metrics[k];
                let mut path = concat2(plc.name.as_str(), ".");
                path.append(d.config.device_id.as_str());
                path.append(".");
                path.append(m.name.as_str());
                let initial_value = match &m.initial_value {
                    Some(v) => v.deep_copy(),
                    None => m.data_type.zero_like(),
                };
                let spec = NodeSpec {
                    device_id: d.config.device_id.clone(),
                    metric_name: m.name.clone(),
                    node_path: path,
                    initial_value,
                };
                let ghost mid = views(out@);
                out.push(spec);
                assert(all[k as int] == spec@);
                assert(views(out@) =~= mid.push(spec@));
                assert(all.take(k + 1) =~= all.take(k as int).push(all[k as int]));
                k = k + 1;
            }
            assert(all.take(metrics.len() as int) =~= all);
        } else {
            assert(before + Seq::<NodeSpecView>::empty() =~= before);
        }
        i = i + 1;
    }
    assert(dv.take(devices.len() as int) =~= dv);
    out
}

/// The nodes a PLC server registers are exactly the nodes the connector of
/// that PLC reads: same order, same device and metric, the node id the
/// connector reads is `ns=2;` and `s=` followed by the node's path, and the
/// node starts from the value the read expects.
pub proof fn server_nodes_match_reads(plc: PlcConfigView, devs: Seq<ResolvedDeviceView>)
    ensures
        plc_specs(plc, devs).len() == plc_reads(plc, devs).len(),
        forall|k: int| 0 <= k < plc_specs(plc, devs).len() ==> {
            let s = #[trigger] plc_specs(plc, devs)[k];
            let r = plc_reads(plc, devs)[k];
            &&& r.node_id == "ns=2;s="@ + s.node_path
            &&& r.device_id == s.device_id
            &&& r.metric_name == s.metric_name
            &&& r.data_type == s.initial_value
        },
    decreases devs.len(),
{
    if devs.len() > 0 {
        server_nodes_match_reads(plc, devs.drop_last());
        let a = plc_specs(plc, devs.drop_last());
        let b = plc_reads(plc, devs.drop_last());
        let d = devs.last();
        if lists_device(plc, d.config.device_id) {
            let sa = d.type_def.metrics.map_values(|m: DeviceMetricView| metric_spec(plc.name, d.config.device_id, m));
            let rb = crate::plant::device_reads(plc.name, d);
            assert forall|k: int| 0 <= k < plc_specs(plc, devs).len() implies {
                let s = #[trigger] plc_specs(plc, devs)[k];
                let r = plc_reads(plc, devs)[k];
                &&& r.node_id == "ns=2;s="@ + s.node_path
                &&& r.device_id == s.device_id
                &&& r.metric_name == s.metric_name
                &&& r.data_type == s.initial_value
            } by {
                if k < a.len() {
                    assert(plc_specs(plc, devs)[k] == a[k]);
                    assert(plc_reads(plc, devs)[k] == b[k]);
                } else {
                    let j = k - a.len();
                    assert(plc_specs(plc, devs)[k] == sa[j]);
                    assert(plc_reads(plc, devs)[k] == rb[j]);
                    let m = d.type_def.metrics[j];
                    assert(rb[j].node_id == node_id(plc.name, d.config.device_id, m.name));
                    assert(node_id(plc.name, d.config.device_id, m.name)
                        =~= "ns=2;s="@ + node_path(plc.name, d.config.device_id, m.name));
                }
            }
        } else {
            assert(plc_specs(plc, devs) =~= a);
            assert(plc_reads(plc, devs) =~= b);
        }
    }
}

// ============================================================================
// Address space layout and updates
// ============================================================================

/// The device ids of the nodes, each once, in order of first appearance.
pub open spec fn unique_ids(specs: Seq<NodeSpecView>) -> Seq<Seq<char>>
    decreases specs.len(),
{
    if specs.len() == 0 {
        Seq::empty()
    } else {
        let seen = unique_ids(specs.drop_last());
        if seen.contains(specs.last().device_id) {
            seen
        } else {
            seen.push(specs.last().device_id)
        }
    }
}

/// The device folders of a PLC server: the device ids of its nodes, each
/// once, in order of first appearance.
pub fn device_folders(specs: &Vec<NodeSpec>) -> (r: Vec<String>)
    ensures
        views(r@) == unique_ids(views(specs@)),
{
    let ghost sv = views(specs@);
    let mut seen: Vec<String> = Vec::new();
    let mut i: usize = 0;
    assert(sv.take(0) =~= Seq::<NodeSpecView>::empty());
    while i < specs.len()
        invariant
            sv == views(specs@),
            i <= specs.len(),
            views(seen@) == unique_ids(sv.take(i as int)),
        decreases specs.len() - i,
    {
        assert(sv.take(i + 1).drop_last() =~= sv.take(i as int));
        assert(sv.take(i + 1).last() == specs@[i as int]@);
        let id = &specs[i].device_id;
        let mut found = false;
        let mut j: usize = 0;
        while j < seen.len()
            invariant
                j <= seen.len(),
                found == exists|x: int| 0 <= x < j && #[trigger] views(seen@)[x] == id@,
            decreases seen.len() - j,
        {
            if same_text(seen[j].as_str(), id.as_str()) {
                assert(views(seen@)[j as int] == id@);
                found = true;
            }
            j = j + 1;
        }
        if !found {
            let ghost before = views(seen@);
            seen.push(id.clone());
            assert(views(seen@) =~= before.push(id@));
        }
        i = i + 1;
    }
    assert(sv.take(specs.len() as int) =~= sv);
    seen
}

/// The nodes of one device folder, in order.
pub open spec fn specs_of_device(specs: Seq<NodeSpecView>, device_id: Seq<char>) -> Seq<NodeSpecView> {
    specs.filter(|s: NodeSpecView| s.device_id == device_id)
}

/// The nodes registered in the folder of `device_id`.
pub fn folder_nodes(specs: &Vec<NodeSpec>, device_id: &str) -> (r: Vec<NodeSpec>)
    ensures
        views(r@) == specs_of_device(views(specs@), device_id@),
{
    let ghost sv = views(specs@);
    let mut out: Vec<NodeSpec> = Vec::new();
    let mut i: usize = 0;
    assert(sv.take(0).filter(|s: NodeSpecView| s.device_id == device_id@) =~= Seq::<NodeSpecView>::empty());
    while i < specs.len()
        invariant
            sv == views(specs@),
            i <= specs.len(),
            views(out@) == sv.take(i as int).filter(|s: NodeSpecView| s.device_id == device_id@),
        decreases specs.len() - i,
    {
        assert(sv.take(i + 1).drop_last() =~= sv.take(i as int));
        let s = &specs[i];
        assert(sv[i as int] == s@);
        proof {
            sv.take(i as int).lemma_filter_push(sv[i as int], |s: NodeSpecView| s.device_id == device_id@);
        }
        assert(sv.take(i + 1) =~= sv.take(i as int).push(sv[i as int]));
        if same_text(s.device_id.as_str(), device_id) {
            let ghost before = views(out@);
            out.push(s.deep_copy());
            assert(views(out@) =~= before.push(s@));
        }
        i = i + 1;
    }
    assert(sv.take(specs.len() as int) =~= sv);
    out
}

/// The value pushes of one server tick: for each node, in order, whose
/// device field has a live value, that value under the node's path.
pub open spec fn node_updates(specs: Seq<NodeSpecView>, state: Map<Seq<char>, Map<Seq<char>, DataTypeView>>) -> Seq<(Seq<char>, DataTypeView)>
    decreases specs.len(),
{
    if specs.len() == 0 {
        Seq::empty()
    } else {
        let rest = node_updates(specs.drop_last(), state);
        let s = specs.last();
        match live_field(state, s.device_id, s.metric_name) {
            Some(v) => rest.push((s.node_path, v)),
            None => rest,
        }
    }
}

/// Views of (path, value) pairs.
pub open spec fn update_views(v: Seq<(String, DataType)>) -> Seq<(Seq<char>, DataTypeView)> {
    v.map_values(|p: (String, DataType)| (p.0@, p.1@))
}

/// The value pushes of one server tick (see `node_updates`).
pub fn collect_node_updates(specs: &Vec<NodeSpec>, state: &StrMap<StrMap<DataType>>) -> (r: Vec<(String, DataType)>)
    ensures
        update_views(r@) == node_updates(views(specs@), state@),
{
    let ghost sv = views(specs@);
    let mut out: Vec<(String, DataType)> = Vec::new();
    let mut i: usize = 0;
    assert(sv.take(0) =~= Seq::<NodeSpecView>::empty());
    assert(update_views(out@) =~= Seq::<(Seq<char>, DataTypeView)>::empty());
    while i < specs.len()
        invariant
            sv == views(specs@),
            i <= specs.len(),
            update_views(out@) == node_updates(sv.take(i as int), state@),
        decreases specs.len() - i,
    {
        assert(sv.take(i + 1).drop_last() =~= sv.take(i as int));
        let s = &specs[i];
        assert(sv.take(i + 1).last() == s@);
        let value = match state.get(s.device_id.as_str()) {
            Some(fields) => fields.get(s.metric_name.as_str()),
            None => None,
        };
        match value {
            Some(v) => {
                let ghost before = update_views(out@);
                out.push((s.node_path.clone(), v.deep_copy()));
                assert(update_views(out@) =~= before.push((s@.node_path, v@)));
            },
            None => {},
        }
        i = i + 1;
    }
    assert(sv.take(specs.len() as int) =~= sv);
    out
}

/// The directory a PLC server keeps its certificates in:
/// `./pki-` followed by the PLC name lowercased, spaces turned into `-`.
pub open spec fn pki_dir(plc_name: Seq<char>) -> Seq<char> {
    "./pki-"@ + unicode_lowercase(plc_name).map_values(|c: char| if c == ' ' { '-' } else { c })
}

/// The certificate directory of a PLC server (see `pki_dir`); for an ASCII
/// name the lowercasing is ASCII lowercasing.
pub fn pki_dir_for(plc_name: &str) -> (r: String)
    ensures
        r@ == pki_dir(plc_name@),
        all_ascii(plc_name@) ==> r@ == "./pki-"@ + ascii_lower(plc_name@).map_values(|c: char| if c == ' ' { '-' } else { c }),
{
    let lower = to_lowercase(plc_name);
    let cs = chars_of(lower.as_str());
    let mut r = crate::text::owned("./pki-");
    let ghost start = r@;
    let mut i: usize = 0;
    while i < cs.len()
        invariant
            i <= cs.len(),
            cs@ == unicode_lowercase(plc_name@),
            start == "./pki-"@,
            r@ == start + cs@.take(i as int).map_values(|c: char| if c == ' ' { '-' } else { c }),
        decreases cs.len() - i,
    {
        let c = cs[i];
        if c == ' ' {
            r.push('-');
        } else {
            r.push(c);
        }
        assert(cs@.take(i + 1).map_values(|c: char| if c == ' ' { '-' } else { c })
            =~= cs@.take(i as int).map_values(|c: char| if c == ' ' { '-' } else { c }).push(if c == ' ' { '-' } else { c }));
        i = i + 1;
    }
    assert(cs@.take(cs.len() as int) =~= cs@);
    r
}

/// The discovery URL a PLC server announces: `opc.tcp://0.0.0.0:{port}`.
pub fn discovery_url(port: u16) -> (r: String)
    ensures
        r@ == "opc.tcp://0.0.0.0:"@ + decimal(port as nat),
{
    concat2("opc.tcp://0.0.0.0:", u64_text(port as u64).as_str())
}

} // verus!
