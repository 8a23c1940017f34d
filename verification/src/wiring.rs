//! Wires between devices, as the orchestration tick routes them: each wire
//! copies a source device's field into an input port of a device on some
//! PLC, written through that PLC's connector.
use vstd::prelude::*;
use crate::data::{DataType, DataTypeView, DeepCopy, views};
use crate::schema::{PlantConfig, PlcConfigView, DeviceConfigView};
use crate::plant::{node_id, node_id_for};
use crate::strmap::StrMap;
use crate::handle::live_field;
use crate::text::same_text;

verus! {

/// A write of a value to a node of a PLC server.
#[derive(Clone, Debug)]
pub struct WriteCmd {
    pub node_id: String,
    pub value: DataType,
}

pub struct WriteCmdView {
    pub node_id: Seq<char>,
    pub value: DataTypeView,
}

impl View for WriteCmd {
    type V = WriteCmdView;

    open spec fn view(&self) -> WriteCmdView {
        WriteCmdView { node_id: self.node_id@, value: self.value@ }
    }
}

/// One wire of the orchestration tick: the source field, the PLC of the
/// destination device, and the destination node
/// (`ns=2;s={plc_name}.{device_id}.{input_port}`).
#[derive(Clone, Debug)]
pub struct OrchestratorWire {
    pub src_device_id: String,
    pub src_field: String,
    pub dst_plc_name: String,
    pub dst_node_id: String,
}

pub struct OrchestratorWireView {
    pub src_device_id: Seq<char>,
    pub src_field: Seq<char>,
    pub dst_plc_name: Seq<char>,
    pub dst_node_id: Seq<char>,
}

impl View for OrchestratorWire {
    type V = OrchestratorWireView;

    open spec fn view(&self) -> OrchestratorWireView {
        OrchestratorWireView {
            src_device_id: self.src_device_id@,
            src_field: self.src_field@,
            dst_plc_name: self.dst_plc_name@,
            dst_node_id: self.dst_node_id@,
        }
    }
}

impl DeepCopy for OrchestratorWire {
    fn deep_copy(&self) -> (r: OrchestratorWire) {
        OrchestratorWire {
            src_device_id: self.src_device_id.clone(),
            src_field: self.src_field.clone(),
            dst_plc_name: self.dst_plc_name.clone(),
            dst_node_id: self.dst_node_id.clone(),
        }
    }
}

// ============================================================================
// Wire tables
// ============================================================================

/// The wires into one device: one per input variable, in order.
pub open spec fn device_wires(plc: PlcConfigView, d: DeviceConfigView) -> Seq<OrchestratorWireView> {
    d.input_variables.map_values(|iv: crate::schema::InputVariableView| OrchestratorWireView {
        src_device_id: iv.source_device_id,
        src_field: iv.source_field,
        dst_plc_name: plc.name,
        dst_node_id: node_id(plc.name, d.device_id, iv.name),
    })
}

/// The wires into the first `n` devices of a PLC.
pub open spec fn plc_wires(plc: PlcConfigView, n: int) -> Seq<OrchestratorWireView>
    decreases n,
{
    if n <= 0 {
        Seq::empty()
    } else {
        plc_wires(plc, n - 1) + device_wires(plc, plc.devices[n - 1])
    }
}

/// The wire table of a plant: every input variable of every device, PLC by
/// PLC and device by device.
pub open spec fn plant_wires(plcs: Seq<PlcConfigView>) -> Seq<OrchestratorWireView>
    decreases plcs.len(),
{
    if plcs.len() == 0 {
        Seq::empty()
    } else {
        plant_wires(plcs.drop_last()) + plc_wires(plcs.last(), plcs.last().devices.len() as int)
    }
}

/// The wire table of a plant read from its configuration (used when no
/// database holds the wires).
pub fn build_wire_table_from_plant(plant: &PlantConfig) -> (r: Vec<OrchestratorWire>)
    ensures
        views(r@) == plant_wires(plant@.plcs),
{
    let ghost pv = plant@.plcs;
    let mut wires: Vec<OrchestratorWire> = Vec::new();
    assert(pv.take(0) =~= Seq::<PlcConfigView>::empty());
    let mut p: usize = 0;
    while p < plant.plcs.len()
        invariant
            pv == plant@.plcs,
            p <= plant.plcs.len(),
            views(wires@) == plant_wires(pv.take(p as int)),
        decreases plant.plcs.len() - p,
    {
        let plc = &plant.plcs[p];
        assert(pv[p as int] == plc@);
        let ghost base = views(wires@);
        let mut d: usize = 0;
        while d < plc.devices.len()
            invariant
                plc@ == pv[p as int],
                d <= plc.devices.len(),
                views(wires@) == base + plc_wires(plc@, d as int),
            decreases plc.devices.len() - d,
        {
            let device = &plc.devices[d];
            assert(plc@.devices[d as int] == device@);
            let ghost mid = views(wires@);
            let mut k: usize = 0;
            while k < device.input_variables.len()
                invariant
                    plc@ == pv[p as int],
                    d < plc.devices.len(),
                    device@ == plc@.devices[d as int],
                    k <= device.input_variables.len(),
                    views(wires@) == mid + device_wires(plc@, device@).take(k as int),
                decreases device.input_variables.len() - k,
            {
                let input = &device.input_variables[k];
                let w = OrchestratorWire {
                    src_device_id: input.source_device_id.clone(),
                    src_field: input.source_field.clone(),
                    dst_plc_name: plc.name.clone(),
                    dst_node_id: node_id_for(plc.name.as_str(), device.device_id.as_str(), input.name.as_str()),
                };
                let ghost before = views(wires@);
                wires.push(w);
                assert(views(wires@) =~= before.push(w@));
                assert(device_wires(plc@, device@)[k as int] == w@);
                assert(device_wires(plc@, device@).take(k + 1) =~= device_wires(plc@, device@).take(k as int).push(w@));
                k = k + 1;
            }
            assert(device_wires(plc@, device@).take(device.input_variables.len() as int) =~= device_wires(plc@, device@));
            assert(plc_wires(plc@, d + 1) == plc_wires(plc@, d as int) + device_wires(plc@, device@));
            assert(views(wires@) =~= base + plc_wires(plc@, d + 1));
            d = d + 1;
        }
        assert(pv.take(p + 1).drop_last() =~= pv.take(p as int));
        assert(pv.take(p + 1).last() == plc@);
        assert(views(wires@) =~= plant_wires(pv.take(p + 1)));
        p = p + 1;
    }
    assert(pv.take(plant.plcs.len() as int) =~= pv);
    wires
}

/// A wire as a database row describes it; the ids are optional columns.
#[derive(Clone, Debug)]
pub struct WireRow {
    pub src_device_id: Option<String>,
    pub src_field: Option<String>,
    pub dst_plc_name: String,
    pub dst_device_id: Option<String>,
    pub dst_input_port: String,
}

/// The wire a row describes, when its source device, source field and
/// destination device are all present.
pub open spec fn row_wire(
    src_device_id: Option<Seq<char>>,
    src_field: Option<Seq<char>>,
    dst_plc_name: Seq<char>,
    dst_device_id: Option<Seq<char>>,
    dst_input_port: Seq<char>,
) -> Option<OrchestratorWireView> {
    match (src_device_id, src_field, dst_device_id) {
        (Some(s), Some(f), Some(d)) => Some(OrchestratorWireView {
            src_device_id: s,
            src_field: f,
            dst_plc_name: dst_plc_name,
            dst_node_id: node_id(dst_plc_name, d, dst_input_port),
        }),
        _ => None,
    }
}

/// The view of a row's wire.
pub open spec fn wire_of_row(r: WireRow) -> Option<OrchestratorWireView> {
    row_wire(
        crate::data::opt_view(r.src_device_id),
        crate::data::opt_view(r.src_field),
        r.dst_plc_name@,
        crate::data::opt_view(r.dst_device_id),
        r.dst_input_port@,
    )
}

/// The wires of the rows that describe one, in row order.
pub open spec fn wires_of_rows(rows: Seq<WireRow>) -> Seq<OrchestratorWireView>
    decreases rows.len(),
{
    if rows.len() == 0 {
        Seq::empty()
    } else {
        match wire_of_row(rows.last()) {
            Some(w) => wires_of_rows(rows.drop_last()).push(w),
            None => wires_of_rows(rows.drop_last()),
        }
    }
}

/// The wire table from database rows: rows that lack a source device, a
/// source field or a destination device are left out.
pub fn wires_from_rows(rows: &Vec<WireRow>) -> (r: Vec<OrchestratorWire>)
    ensures
        views(r@) == wires_of_rows(rows@),
{
    let mut out: Vec<OrchestratorWire> = Vec::new();
    let mut i: usize = 0;
    assert(rows@.take(0) =~= Seq::<WireRow>::empty());
    while i < rows.len()
        invariant
            i <= rows.len(),
            views(out@) == wires_of_rows(rows@.take(i as int)),
        decreases rows.len() - i,
    {
        let row = &rows[i];
        assert(rows@.take(i + 1).drop_last() =~= rows@.take(i as int));
        assert(rows@.take(i + 1).last() == *row);
        match (&row.src_device_id, &row.src_field, &row.dst_device_id) {
            (Some(s), Some(f), Some(d)) => {
                let w = OrchestratorWire {
                    src_device_id: s.clone(),
                    src_field: f.clone(),
                    dst_plc_name: row.dst_plc_name.clone(),
                    dst_node_id: node_id_for(row.dst_plc_name.as_str(), d.as_str(), row.dst_input_port.as_str()),
                };
                let ghost before = views(out@);
                out.push(w);
                assert(views(out@) =~= before.push(w@));
            },
            _ => {},
        }
        i = i + 1;
    }
    assert(rows@.take(rows.len() as int) =~= rows@);
    out
}

// ============================================================================
// Routing
// ============================================================================

/// The writes one orchestration tick sends: for each wire, in order, whose
/// source field has a live value and whose destination PLC has a connector,
/// that value written to the destination node, addressed to the PLC.
pub open spec fn routed(
    wires: Seq<OrchestratorWireView>,
    ingested: Map<Seq<char>, Map<Seq<char>, DataTypeView>>,
    handles: Seq<Seq<char>>,
) -> Seq<(Seq<char>, WriteCmdView)>
    decreases wires.len(),
{
    if wires.len() == 0 {
        Seq::empty()
    } else {
        let rest = routed(wires.drop_last(), ingested, handles);
        let w = wires.last();
        match live_field(ingested, w.src_device_id, w.src_field) {
            Some(v) => if handles.contains(w.dst_plc_name) {
                rest.push((w.dst_plc_name, WriteCmdView { node_id: w.dst_node_id, value: v }))
            } else {
                rest
            },
            None => rest,
        }
    }
}

/// Views of addressed writes.
pub open spec fn routed_views(v: Seq<(String, WriteCmd)>) -> Seq<(Seq<char>, WriteCmdView)> {
    v.map_values(|p: (String, WriteCmd)| (p.0@, p.1@))
}

/// Whether a connector named `name` is among `handles`.
fn has_handle(handles: &Vec<String>, name: &str) -> (r: bool)
    ensures
        r == views(handles@).contains(name@),
{
    let mut i: usize = 0;
    while i < handles.len()
        invariant
            i <= handles.len(),
            forall|j: int| 0 <= j < i ==> #[trigger] views(handles@)[j] != name@,
        decreases handles.len() - i,
    {
        if same_text(handles[i].as_str(), name) {
            assert(views(handles@)[i as int] == name@);
            return true;
        }
        i = i + 1;
    }
    false
}

/// One orchestration tick: the writes to send, each addressed to the PLC
/// whose connector carries it (see `routed`).
pub fn route_wires(
    wires: &Vec<OrchestratorWire>,
    ingested: &StrMap<StrMap<DataType>>,
    handles: &Vec<String>,
) -> (r: Vec<(String, WriteCmd)>)
    ensures
        routed_views(r@) == routed(views(wires@), ingested@, views(handles@)),
{
    let ghost wv = views(wires@);
    let mut out: Vec<(String, WriteCmd)> = Vec::new();
    let mut i: usize = 0;
    assert(wv.take(0) =~= Seq::<OrchestratorWireView>::empty());
    assert(routed_views(out@) =~= Seq::<(Seq<char>, WriteCmdView)>::empty());
    while i < wires.len()
        invariant
            wv == views(wires@),
            i <= wires.len(),
            routed_views(out@) == routed(wv.take(i as int), ingested@, views(handles@)),
        decreases wires.len() - i,
    {
        let w = &wires[i];
        assert(wv.take(i + 1).drop_last() =~= wv.take(i as int));
        assert(wv.take(i + 1).last() == w@);
        let value = match ingested.get(w.src_device_id.as_str()) {
            Some(fields) => fields.get(w.src_field.as_str()),
            None => None,
        };
        match value {
            Some(v) => {
                if has_handle(handles, w.dst_plc_name.as_str()) {
                    let cmd = WriteCmd { node_id: w.dst_node_id.clone(), value: v.deep_copy() };
                    let ghost before = routed_views(out@);
                    out.push((w.dst_plc_name.clone(), cmd));
                    assert(routed_views(out@) =~= before.push((w@.dst_plc_name, cmd@)));
                }
            },
            None => {},
        }
        i = i + 1;
    }
    assert(wv.take(wires.len() as int) =~= wv);
    out
}

/// The source value of a wire is live: its source device has ingested
/// state holding its source field.
pub open spec fn source_is_live(w: OrchestratorWireView, ingested: Map<Seq<char>, Map<Seq<char>, DataTypeView>>) -> bool {
    ingested.contains_key(w.src_device_id) && ingested[w.src_device_id].contains_key(w.src_field)
}

/// The write a wire with a live source sends: to its destination PLC, its
/// destination node set to the live value of its source field.
pub open spec fn live_write(w: OrchestratorWireView, ingested: Map<Seq<char>, Map<Seq<char>, DataTypeView>>) -> (Seq<char>, WriteCmdView) {
    (w.dst_plc_name, WriteCmdView { node_id: w.dst_node_id, value: ingested[w.src_device_id][w.src_field] })
}

/// `out` is the live writes of the wires that `idx` picks: `idx` picks
/// wires in order, each at most once, each with a live source and a
/// connector for its PLC, and picks every such wire; `out` holds, in the same
/// order, the live write of each picked wire.
pub open spec fn live_selection(
    wires: Seq<OrchestratorWireView>,
    ingested: Map<Seq<char>, Map<Seq<char>, DataTypeView>>,
    handles: Seq<Seq<char>>,
    out: Seq<(Seq<char>, WriteCmdView)>,
    idx: Seq<int>,
) -> bool {
    &&& idx.len() == out.len()
    &&& forall|k: int| 0 <= k < idx.len() ==> 0 <= #[trigger] idx[k] < wires.len()
    &&& forall|k: int, l: int| 0 <= k < l < idx.len() ==> idx[k] < idx[l]
    &&& forall|k: int| 0 <= k < idx.len() ==> source_is_live(wires[#[trigger] idx[k]], ingested)
        && handles.contains(wires[idx[k]].dst_plc_name)
        && out[k] == live_write(wires[idx[k]], ingested)
    &&& forall|j: int| 0 <= j < wires.len() && source_is_live(#[trigger] wires[j], ingested)
        && handles.contains(wires[j].dst_plc_name) ==> idx.contains(j)
}

/// Which wires `routed` sends, by index into the wires.
proof fn lemma_routed_selects(
    wires: Seq<OrchestratorWireView>,
    ingested: Map<Seq<char>, Map<Seq<char>, DataTypeView>>,
    handles: Seq<Seq<char>>,
) -> (idx: Seq<int>)
    ensures
        live_selection(wires, ingested, handles, routed(wires, ingested, handles), idx),
    decreases wires.len(),
{
    if wires.len() == 0 {
        Seq::empty()
    } else {
        let p = wires.drop_last();
        let prev = lemma_routed_selects(p, ingested, handles);
        let n = wires.len() - 1;
        let w = wires.last();
        let out = routed(wires, ingested, handles);
        let pout = routed(p, ingested, handles);
        assert forall|k: int| 0 <= k < prev.len() implies wires[#[trigger] prev[k]] == p[prev[k]] by {}
        if source_is_live(w, ingested) && handles.contains(w.dst_plc_name) {
            let idx = prev.push(n);
            assert(out == pout.push(live_write(w, ingested)));
            assert forall|k: int| 0 <= k < idx.len() implies source_is_live(wires[#[trigger] idx[k]], ingested)
                && handles.contains(wires[idx[k]].dst_plc_name)
                && out[k] == live_write(wires[idx[k]], ingested) by {
                if k < prev.len() {
                    assert(idx[k] == prev[k]);
                    assert(wires[prev[k]] == p[prev[k]]);
                    assert(out[k] == pout[k]);
                }
            }
            assert forall|k: int| 0 <= k < idx.len() implies 0 <= #[trigger] idx[k] < wires.len() by {
                if k < prev.len() {
                    assert(idx[k] == prev[k]);
                }
            }
            assert forall|k: int, l: int| 0 <= k < l < idx.len() implies idx[k] < idx[l] by {
                assert(idx[k] == prev[k]);
                if l < prev.len() {
                    assert(idx[l] == prev[l]);
                }
            }
            assert forall|j: int| 0 <= j < wires.len() && source_is_live(#[trigger] wires[j], ingested) && handles.contains(wires[j].dst_plc_name)
                implies idx.contains(j) by {
                if j < n {
                    assert(p[j] == wires[j]);
                    assert(source_is_live(p[j], ingested));
                    let k = choose|k: int| 0 <= k < prev.len() && prev[k] == j;
                    assert(idx[k] == j);
                } else {
                    assert(idx[idx.len() - 1] == j);
                }
            }
            idx
        } else {
            assert(out == pout) by {
                if source_is_live(w, ingested) {
                    assert(live_field(ingested, w.src_device_id, w.src_field) is Some);
                } else {
                    assert(live_field(ingested, w.src_device_id, w.src_field) is None);
                }
            }
            assert forall|j: int| 0 <= j < wires.len() && source_is_live(#[trigger] wires[j], ingested) && handles.contains(wires[j].dst_plc_name)
                implies prev.contains(j) by {
                assert(j < n);
                assert(p[j] == wires[j]);
                assert(source_is_live(p[j], ingested));
            }
            assert forall|k: int| 0 <= k < prev.len() implies source_is_live(wires[#[trigger] prev[k]], ingested)
                && handles.contains(wires[prev[k]].dst_plc_name)
                && out[k] == live_write(wires[prev[k]], ingested) by {
                assert(wires[prev[k]] == p[prev[k]]);
            }
            prev
        }
    }
}

/// Routing sends exactly the live values: every write carries, for some
/// wire whose destination PLC has a connector, the live ingested value of
/// that wire's source field, to that wire's destination node; the writes
/// follow the wires' order, one per such wire; and a wire whose source field
/// has no live value, or whose PLC has no connector, sends nothing.
pub proof fn routing_sends_live_values(
    wires: Seq<OrchestratorWireView>,
    ingested: Map<Seq<char>, Map<Seq<char>, DataTypeView>>,
    handles: Seq<Seq<char>>,
)
    ensures
        exists|idx: Seq<int>| #[trigger] live_selection(wires, ingested, handles, routed(wires, ingested, handles), idx),
{
    let idx = lemma_routed_selects(wires, ingested, handles);
}

} // verus!
