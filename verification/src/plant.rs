//! The resolved plant: the plant configuration with every device matched to
//! its type, and the endpoint descriptions the connector layer polls.
use vstd::prelude::*;
use crate::data::{DataType, DataTypeView, DeepCopy, views, zero_like};
use crate::schema::{
    DeviceMetric, DeviceMetricView, DeviceTypeDefinition, NodeReadConfig, NodeReadConfigView,
    PlantConfig, PlantConfigView, PlcConfig, PlcConfigView, PlcEndpointConfig, PlcEndpointConfigView,
};
use crate::resolved::{ResolvedDevice, ResolvedDeviceView};
use crate::resolve::{ConfigError, ConfigErrorView, resolve_devices, spec_resolve};
use crate::text::{concat2, same_text, u64_text, decimal};
use crate::lookup::{first_index, lemma_first_index, lemma_first_index_at};

verus! {

// ============================================================================
// Addresses
// ============================================================================

/// The base URI a PLC is reached at: its configured URI, or `opc.tcp://`
/// followed by its id (the host name a simulated PLC runs under).
pub open spec fn endpoint_uri(plc: PlcConfigView) -> Seq<char> {
    match plc.uri {
        Some(u) => u,
        None => "opc.tcp://"@ + plc.plc_id,
    }
}

/// The full endpoint URL of a PLC: `{uri}:{port}{endpoint}`.
pub open spec fn endpoint_url(plc: PlcConfigView) -> Seq<char> {
    endpoint_uri(plc) + ":"@ + decimal(plc.port as nat) + plc.endpoint
}

/// The OPC-UA node id of a device field on a PLC server:
/// `ns=2;s={plc_name}.{device_id}.{field}`.
pub open spec fn node_id(plc_name: Seq<char>, device_id: Seq<char>, field: Seq<char>) -> Seq<char> {
    "ns=2;s="@ + plc_name + "."@ + device_id + "."@ + field
}

impl PlcConfig {
    /// The base URI the PLC is reached at.
    pub fn endpoint_uri(&self) -> (r: String)
        ensures
            r@ == endpoint_uri(self@),
    {
        match &self.uri {
            Some(u) => u.clone(),
            None => concat2("opc.tcp://", self.plc_id.as_str()),
        }
    }

    /// The full endpoint URL of the PLC.
    pub fn endpoint_url(&self) -> (r: String)
        ensures
            r@ == endpoint_url(self@),
    {
        let mut r = self.endpoint_uri();
        r.append(":");
        let port = u64_text(self.port as u64);
        r.append(port.as_str());
        r.append(self.endpoint.as_str());
        r
    }
}

/// Node id of a device field on a PLC server.
pub fn node_id_for(plc_name: &str, device_id: &str, field: &str) -> (r: String)
    ensures
        r@ == node_id(plc_name@, device_id@, field@),
{
    let mut r = concat2("ns=2;s=", plc_name);
    r.append(".");
    r.append(device_id);
    r.append(".");
    r.append(field);
    r
}

// ============================================================================
// Endpoint descriptions
// ============================================================================

/// The value a node read starts from: the metric's initial value, or the
/// zero of the metric's kind (`0.0`, `""` or `false`).
pub open spec fn read_default(m: DeviceMetricView) -> DataTypeView {
    match m.initial_value {
        Some(v) => v,
        None => zero_like(m.data_type),
    }
}

/// The node read for one metric of a device on the PLC named `plc_name`.
pub open spec fn metric_read(plc_name: Seq<char>, device_id: Seq<char>, m: DeviceMetricView) -> NodeReadConfigView {
    NodeReadConfigView {
        device_id: device_id,
        metric_name: m.name,
        node_id: node_id(plc_name, device_id, m.name),
        data_type: read_default(m),
    }
}

/// The node reads for every metric of a device, in metric order.
pub open spec fn device_reads(plc_name: Seq<char>, d: ResolvedDeviceView) -> Seq<NodeReadConfigView> {
    d.type_def.metrics.map_values(|m: DeviceMetricView| metric_read(plc_name, d.config.device_id, m))
}

/// The PLC lists a device with this id.
pub open spec fn lists_device(plc: PlcConfigView, id: Seq<char>) -> bool {
    exists|i: int| 0 <= i < plc.devices.len() && #[trigger] plc.devices[i].device_id == id
}

/// The node reads of a PLC: for each resolved device that the PLC lists, in
/// order, the reads of all its metrics.
pub open spec fn plc_reads(plc: PlcConfigView, devs: Seq<ResolvedDeviceView>) -> Seq<NodeReadConfigView>
    decreases devs.len(),
{
    if devs.len() == 0 {
        Seq::empty()
    } else {
        plc_reads(plc, devs.drop_last()) + if lists_device(plc, devs.last().config.device_id) {
            device_reads(plc.name, devs.last())
        } else {
            Seq::empty()
        }
    }
}

/// The endpoint description of a PLC.
pub open spec fn endpoint_of(plc: PlcConfigView, devs: Seq<ResolvedDeviceView>) -> PlcEndpointConfigView {
    PlcEndpointConfigView {
        name: plc.name,
        protocol: plc.protocol,
        url: endpoint_url(plc),
        node_reads: plc_reads(plc, devs),
    }
}

/// Whether the PLC lists a device with this id.
pub fn plc_lists_device(plc: &PlcConfig, id: &str) -> (r: bool)
    ensures
        r == lists_device(plc@, id@),
{
    let mut i: usize = 0;
    while i < plc.devices.len()
        invariant
            i <= plc.devices.len(),
            forall|j: int| 0 <= j < i ==> #[trigger] plc@.devices[j].device_id != id@,
        decreases plc.devices.len() - i,
    {
        if same_text(plc.devices[i].device_id.as_str(), id) {
            assert(plc@.devices[i as int].device_id == id@);
            return true;
        }
        i = i + 1;
    }
    false
}

/// The node read for one metric.
fn make_read(plc_name: &str, device_id: &str, m: &DeviceMetric) -> (r: NodeReadConfig)
    ensures
        r@ == metric_read(plc_name@, device_id@, m@),
{
    let data_type = match &m.initial_value {
        Some(v) => v.deep_copy(),
        None => m.data_type.zero_like(),
    };
    NodeReadConfig {
        device_id: crate::text::owned(device_id),
        metric_name: m.name.clone(),
        node_id: node_id_for(plc_name, device_id, m.name.as_str()),
        data_type,
    }
}

/// The node reads of one PLC.
fn reads_for_plc(plc: &PlcConfig, devices: &Vec<ResolvedDevice>) -> (r: Vec<NodeReadConfig>)
    ensures
        views(r@) == plc_reads(plc@, views(devices@)),
{
    let ghost dv = views(devices@);
    let mut out: Vec<NodeReadConfig> = Vec::new();
    assert(views(out@) =~= plc_reads(plc@, dv.take(0)));
    let mut i: usize = 0;
    while i < devices.len()
        invariant
            dv == views(devices@),
            i <= devices.len(),
            views(out@) == plc_reads(plc@, dv.take(i as int)),
        decreases devices.len() - i,
    {
        assert(dv.take(i + 1).drop_last() =~= dv.take(i as int));
        let d = &devices[i];
        assert(d@ == dv[i as int]);
        let ghost before = views(out@);
        if plc_lists_device(plc, d.config.device_id.as_str()) {
            let metrics = &d.type_def.metrics;
            let ghost reads = device_reads(plc@.name, d@);
            let mut k: usize = 0;
            while k < metrics.len()
                invariant
                    metrics@ == d.type_def.metrics@,
                    reads == device_reads(plc@.name, d@),
                    reads.len() == metrics.len(),
                    k <= metrics.len(),
                    views(out@) == before + reads.take(k as int),
                decreases metrics.len() - k,
            {
                let rd = make_read(plc.name.as_str(), d.config.device_id.as_str(), &metrics[k]);
                let ghost mid = views(out@);
                out.push(rd);
                assert(reads[k as int] == metric_read(plc@.name, d@.config.device_id, metrics@[k as int]@));
                assert(views(out@) =~= mid.push(rd@));
                assert(reads.take(k + 1) =~= reads.take(k as int).push(reads[k as int]));
                k = k + 1;
            }
            assert(reads.take(metrics.len() as int) =~= reads);
        } else {
            assert(before + Seq::<NodeReadConfigView>::empty() =~= before);
        }
        i = i + 1;
    }
    assert(dv.take(devices.len() as int) =~= dv);
    out
}

/// One endpoint description per PLC, in PLC order.
pub fn endpoint_configs_for(plcs: &Vec<PlcConfig>, devices: &Vec<ResolvedDevice>) -> (r: Vec<PlcEndpointConfig>)
    ensures
        views(r@) == views(plcs@).map_values(|p: PlcConfigView| endpoint_of(p, views(devices@))),
{
    let ghost pv = views(plcs@);
    let mut out: Vec<PlcEndpointConfig> = Vec::new();
    let mut i: usize = 0;
    while i < plcs.len()
        invariant
            pv == views(plcs@),
            i <= plcs.len(),
            views(out@) == pv.take(i as int).map_values(|p: PlcConfigView| endpoint_of(p, views(devices@))),
        decreases plcs.len() - i,
    {
        let plc = &plcs[i];
        let e = PlcEndpointConfig {
            name: plc.name.clone(),
            protocol: plc.protocol.clone(),
            url: plc.endpoint_url(),
            node_reads: reads_for_plc(plc, devices),
        };
        let ghost before = views(out@);
        out.push(e);
        assert(views(out@) =~= before.push(e@));
        assert(pv.take(i + 1).map_values(|p: PlcConfigView| endpoint_of(p, views(devices@)))
            =~= pv.take(i as int).map_values(|p: PlcConfigView| endpoint_of(p, views(devices@))).push(endpoint_of(pv[i as int], views(devices@))));
        i = i + 1;
    }
    assert(pv.take(plcs.len() as int) =~= pv);
    out
}

// ============================================================================
// ResolvedPlant
// ============================================================================

/// The devices (in order) that the PLC lists.
pub open spec fn listed_devices(plc: PlcConfigView, devs: Seq<ResolvedDeviceView>) -> Seq<ResolvedDeviceView>
    decreases devs.len(),
{
    if devs.len() == 0 {
        Seq::empty()
    } else if lists_device(plc, devs.last().config.device_id) {
        listed_devices(plc, devs.drop_last()).push(devs.last())
    } else {
        listed_devices(plc, devs.drop_last())
    }
}

/// The ids of the PLCs, in order.
pub open spec fn plc_ids(plcs: Seq<PlcConfigView>) -> Seq<Seq<char>> {
    plcs.map_values(|p: PlcConfigView| p.plc_id)
}

/// Index of the first PLC with id `id`.
pub open spec fn first_plc_with_id(plcs: Seq<PlcConfigView>, id: Seq<char>) -> Option<int> {
    first_index(plc_ids(plcs), id)
}

/// An immutable resolved plant: the static configuration and its devices,
/// each merged with its type definition.
pub struct ResolvedPlant {
    pub config: PlantConfig,
    pub devices: Vec<ResolvedDevice>,
}

pub struct ResolvedPlantView {
    pub config: PlantConfigView,
    pub devices: Seq<ResolvedDeviceView>,
}

impl View for ResolvedPlant {
    type V = ResolvedPlantView;

    open spec fn view(&self) -> ResolvedPlantView {
        ResolvedPlantView { config: self.config@, devices: views(self.devices@) }
    }
}

/// Position of the first PLC with the given id.
fn find_plc_by_id(plcs: &Vec<PlcConfig>, id: &str) -> (r: Option<usize>)
    ensures
        match r {
            Some(i) => first_plc_with_id(views(plcs@), id@) == Some(i as int) && i < plcs.len(),
            None => first_plc_with_id(views(plcs@), id@) is None,
        },
{
    let ghost pv = views(plcs@);
    let mut i: usize = 0;
    while i < plcs.len()
        invariant
            pv == views(plcs@),
            i <= plcs.len(),
            forall|j: int| 0 <= j < i ==> #[trigger] pv[j].plc_id != id@,
        decreases plcs.len() - i,
    {
        if same_text(plcs[i].plc_id.as_str(), id) {
            proof {
                assert forall|j: int| 0 <= j < i implies #[trigger] plc_ids(pv)[j] != id@ by {
                    assert(pv[j].plc_id != id@);
                }
                lemma_first_index_at(plc_ids(pv), id@, i as int);
            }
            return Some(i);
        }
        i = i + 1;
    }
    proof {
        lemma_first_index(plc_ids(pv), id@);
        if first_index(plc_ids(pv), id@) is Some {
            let c = first_index(plc_ids(pv), id@).unwrap();
            assert(pv[c].plc_id != id@);
        }
    }
    None
}

impl ResolvedPlant {
    /// Resolve a plant against the device type definitions. Every instance
    /// must name a known type, supply every required param that has no
    /// default, and read its inputs from devices on its own PLC. A later
    /// definition of a type replaces an earlier one of the same name.
    pub fn build(config: PlantConfig, device_types: Vec<DeviceTypeDefinition>) -> (r: Result<ResolvedPlant, ConfigError>)
        ensures
            match r {
                Ok(plant) => plant.config@ == config@
                    && spec_resolve(config@, views(device_types@), true) == Ok::<Seq<ResolvedDeviceView>, ConfigErrorView>(plant@.devices),
                Err(e) => spec_resolve(config@, views(device_types@), true) == Err::<Seq<ResolvedDeviceView>, ConfigErrorView>(e@),
            },
    {
        match resolve_devices(&config, &device_types, true) {
            Ok(devices) => Ok(ResolvedPlant { config, devices }),
            Err(e) => Err(e),
        }
    }

    /// Keep only the PLC with id `plc_id` (the first one, if several share
    /// it) and the devices it lists; fails when no PLC has that id.
    pub fn slice_to_plc(self, plc_id: &str) -> (r: Result<ResolvedPlant, ConfigError>)
        ensures
            match first_plc_with_id(self@.config.plcs, plc_id@) {
                None => r matches Err(e) && e@ == (ConfigErrorView::PlcNotFound { plc_id: plc_id@ }),
                Some(i) => r matches Ok(p) && p@ == (ResolvedPlantView {
                    config: PlantConfigView { plcs: seq![self@.config.plcs[i]], ..self@.config },
                    devices: listed_devices(self@.config.plcs[i], self@.devices),
                }),
            },
    {
        let ghost old_self = self@;
        match find_plc_by_id(&self.config.plcs, plc_id) {
            None => Err(ConfigError::PlcNotFound { plc_id: crate::text::owned(plc_id) }),
            Some(i) => {
                let plc = self.config.plcs[i].deep_copy();
                let ghost dv = views(self.devices@);
                let mut kept: Vec<ResolvedDevice> = Vec::new();
                let mut k: usize = 0;
                assert(views(kept@) =~= listed_devices(plc@, dv.take(0)));
                while k < self.devices.len()
                    invariant
                        dv == views(self.devices@),
                        k <= self.devices.len(),
                        views(kept@) == listed_devices(plc@, dv.take(k as int)),
                    decreases self.devices.len() - k,
                {
                    assert(dv.take(k + 1).drop_last() =~= dv.take(k as int));
                    assert(dv.take(k + 1).last() == dv[k as int]);
                    if plc_lists_device(&plc, self.devices[k].config.device_id.as_str()) {
                        let d = self.devices[k].deep_copy();
                        let ghost before = views(kept@);
                        kept.push(d);
                        assert(views(kept@) =~= before.push(d@));
                    }
                    k = k + 1;
                }
                assert(dv.take(self.devices.len() as int) =~= dv);
                let mut config = self.config;
                let mut plcs: Vec<PlcConfig> = Vec::new();
                plcs.push(plc);
                config.plcs = plcs;
                assert(views(config.plcs@) =~= seq![old_self.config.plcs[i as int]]);
                Ok(ResolvedPlant { config, devices: kept })
            },
        }
    }

    /// One endpoint description per PLC: its name, protocol and URL, and a
    /// node read for every metric of every device it lists.
    pub fn endpoint_configs(&self) -> (r: Vec<PlcEndpointConfig>)
        ensures
            views(r@) == self@.config.plcs.map_values(|p: PlcConfigView| endpoint_of(p, self@.devices)),
    {
        endpoint_configs_for(&self.config.plcs, &self.devices)
    }
}

// ============================================================================
// Laws
// ============================================================================

/// The reads of a PLC depend only on the devices it lists.
proof fn lemma_reads_of_listed(plc: PlcConfigView, devs: Seq<ResolvedDeviceView>)
    ensures
        plc_reads(plc, listed_devices(plc, devs)) == plc_reads(plc, devs),
    decreases devs.len(),
{
    if devs.len() > 0 {
        lemma_reads_of_listed(plc, devs.drop_last());
        let init = listed_devices(plc, devs.drop_last());
        if lists_device(plc, devs.last().config.device_id) {
            assert(listed_devices(plc, devs).drop_last() =~= init);
        } else {
            assert(plc_reads(plc, devs) =~= plc_reads(plc, devs.drop_last()));
        }
    }
}

/// Slicing a plant to one PLC leaves that PLC's endpoint description as it
/// was in the whole plant: the sliced plant describes exactly one endpoint,
/// the one the whole plant describes for that PLC.
pub proof fn slice_keeps_endpoint(plant: ResolvedPlantView, plc_id: Seq<char>)
    requires
        first_plc_with_id(plant.config.plcs, plc_id) is Some,
    ensures
        ({
            let i = first_plc_with_id(plant.config.plcs, plc_id).unwrap();
            let sliced = seq![plant.config.plcs[i]];
            let kept = listed_devices(plant.config.plcs[i], plant.devices);
            sliced.map_values(|p: PlcConfigView| endpoint_of(p, kept))
                == seq![plant.config.plcs.map_values(|p: PlcConfigView| endpoint_of(p, plant.devices))[i]]
        }),
{
    lemma_first_index(plc_ids(plant.config.plcs), plc_id);
    let i = first_plc_with_id(plant.config.plcs, plc_id).unwrap();
    let plc = plant.config.plcs[i];
    let kept = listed_devices(plc, plant.devices);
    lemma_reads_of_listed(plc, plant.devices);
    assert(0 <= i < plant.config.plcs.len());
    assert(seq![plc].map_values(|p: PlcConfigView| endpoint_of(p, kept))
        =~= seq![plant.config.plcs.map_values(|p: PlcConfigView| endpoint_of(p, plant.devices))[i]]);
}

} // verus!
