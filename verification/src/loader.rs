//! Assembling the plant from database rows: PLCs, device instances and the
//! wires into their input ports, for the whole plant or for one PLC.
use vstd::prelude::*;
use crate::data::{DeepCopy, views, opt_view, copy_vec, copy_opt_string};
use crate::schema::{DeviceConfig, DeviceConfigView, DeviceTypeDefinition, DeviceTypeDefinitionView, InputVariable, InputVariableView, Param, PlantConfig, PlantConfigView, PlcConfig, PlcConfigView};
use crate::naming::{slugify, spec_slugify};
use crate::text::{same_text, owned};

verus! {

// ============================================================================
// Rows
// ============================================================================

/// A PLC row. `id` is the row's UUID as a 128-bit integer.
#[derive(Clone, Debug)]
pub struct PlcRow {
    pub id: u128,
    pub plc_id: Option<String>,
    pub name: String,
    pub kind: String,
    pub deploy_node: Option<String>,
    pub endpoint_uri: Option<String>,
    pub port: Option<i32>,
    pub protocol: String,
    pub endpoint: String,
}

/// A device instance row, with its type's name and its numeric params.
#[derive(Clone, Debug)]
pub struct InstRow {
    pub plc_id: u128,
    pub device_id: Option<String>,
    pub name: String,
    pub dt_name: String,
    pub params: Vec<Param>,
}

/// A wire row: the destination instance's PLC and device, its input port,
/// and the source device and field.
#[derive(Clone, Debug)]
pub struct PlcWireRow {
    pub dst_plc_id: u128,
    pub dst_device_id: Option<String>,
    pub dst_input_port: String,
    pub src_device_id: Option<String>,
    pub src_field: Option<String>,
}

/// The port a PLC row gives: its port, 4840 when it has none, cut to 16 bits.
pub open spec fn row_port(port: Option<i32>) -> u16 {
    (match port {
        Some(p) => p,
        None => 4840i32,
    }) as u16
}

/// The PLC id a row gives: its id, or the slug of its name.
pub open spec fn row_slug(plc_id: Option<String>, name: String) -> Seq<char> {
    match plc_id {
        Some(p) => p@,
        None => spec_slugify(name@),
    }
}

/// The PLC configuration of a row with the given devices.
pub open spec fn plc_of_row(p: PlcRow, devices: Seq<DeviceConfigView>) -> PlcConfigView {
    PlcConfigView {
        plc_id: row_slug(p.plc_id, p.name),
        name: p.name@,
        simulated: p.kind@ == "simulated"@,
        protocol: p.protocol@,
        uri: opt_view(p.endpoint_uri),
        port: row_port(p.port),
        endpoint: p.endpoint@,
        deploy_target: opt_view(p.deploy_node),
        devices: devices,
    }
}

// ============================================================================
// Whole plant
// ============================================================================

/// The input variables a wire row gives its destination, when it names a
/// destination device, a source device and a source field.
pub open spec fn wire_input(w: PlcWireRow) -> Option<InputVariableView> {
    match (w.dst_device_id, w.src_device_id, w.src_field) {
        (Some(_), Some(s), Some(f)) => Some(InputVariableView { name: w.dst_input_port@, source_device_id: s@, source_field: f@ }),
        _ => None,
    }
}

/// The input variables of device `d` on the PLC with UUID `u`: the wires
/// into it, in row order.
pub open spec fn wire_inputs(wires: Seq<PlcWireRow>, u: u128, d: Seq<char>) -> Seq<InputVariableView>
    decreases wires.len(),
{
    if wires.len() == 0 {
        Seq::empty()
    } else {
        let rest = wire_inputs(wires.drop_last(), u, d);
        let w = wires.last();
        if w.dst_plc_id == u && opt_view(w.dst_device_id) == Some(d) {
            match wire_input(w) {
                Some(iv) => rest.push(iv),
                None => rest,
            }
        } else {
            rest
        }
    }
}

/// Instance `j` is the first with its PLC and device id (the only one that
/// receives the wires into that device).
pub open spec fn first_instance(insts: Seq<InstRow>, j: int) -> bool {
    forall|k: int| 0 <= k < j ==> !(#[trigger] insts[k].plc_id == insts[j].plc_id && opt_view(insts[k].device_id) == opt_view(insts[j].device_id))
}

/// The devices of the PLC with UUID `u` among the first `k` instances: each
/// instance of that PLC with a device id, in order, with the wires into it
/// when it is the first instance of that device.
pub open spec fn plc_devices(insts: Seq<InstRow>, wires: Seq<PlcWireRow>, u: u128, k: int) -> Seq<DeviceConfigView>
    decreases k,
{
    if k <= 0 {
        Seq::empty()
    } else {
        let rest = plc_devices(insts, wires, u, k - 1);
        let inst = insts[k - 1];
        match inst.device_id {
            Some(d) => if inst.plc_id == u {
                rest.push(DeviceConfigView {
                    device_id: d@,
                    name: inst.name@,
                    device_type: inst.dt_name@,
                    input_variables: if first_instance(insts, k - 1) { wire_inputs(wires, u, d@) } else { Seq::empty() },
                    tick_ms: None,
                    params: views(inst.params@),
                })
            } else {
                rest
            },
            None => rest,
        }
    }
}

/// PLC row `i` is the first with its UUID (the only one that receives the
/// instances of that PLC).
pub open spec fn first_plc_row(plcs: Seq<PlcRow>, i: int) -> bool {
    forall|k: int| 0 <= k < i ==> #[trigger] plcs[k].id != plcs[i].id
}

/// The PLCs of the plant, one per row in row order.
pub open spec fn assembled_plcs(plcs: Seq<PlcRow>, insts: Seq<InstRow>, wires: Seq<PlcWireRow>) -> Seq<PlcConfigView> {
    Seq::new(plcs.len(), |i: int| plc_of_row(plcs[i],
        if first_plc_row(plcs, i) { plc_devices(insts, wires, plcs[i].id, insts.len() as int) } else { Seq::empty() }))
}

/// The wires into device `d` of the PLC with UUID `u`.
fn collect_wire_inputs(wires: &Vec<PlcWireRow>, u: u128, d: &str) -> (r: Vec<InputVariable>)
    ensures
        views(r@) == wire_inputs(wires@, u, d@),
{
    let mut out: Vec<InputVariable> = Vec::new();
    let mut i: usize = 0;
    assert(wires@.take(0) =~= Seq::<PlcWireRow>::empty());
    while i < wires.len()
        invariant
            i <= wires.len(),
            views(out@) == wire_inputs(wires@.take(i as int), u, d@),
        decreases wires.len() - i,
    {
        let w = &wires[i];
        assert(wires@.take(i + 1).drop_last() =~= wires@.take(i as int));
        assert(wires@.take(i + 1).last() == *w);
        if w.dst_plc_id == u {
            match (&w.dst_device_id, &w.src_device_id, &w.src_field) {
                (Some(dd), Some(s), Some(f)) => {
                    if same_text(dd.as_str(), d) {
                        let iv = InputVariable { name: w.dst_input_port.clone(), source_device_id: s.clone(), source_field: f.clone() };
                        let ghost before = views(out@);
                        out.push(iv);
                        assert(views(out@) =~= before.push(iv@));
                    }
                },
                _ => {},
            }
        }
        i = i + 1;
    }
    assert(wires@.take(wires.len() as int) =~= wires@);
    out
}

/// Whether instance `j` is the first with its PLC and device id.
fn is_first_instance(insts: &Vec<InstRow>, j: usize) -> (r: bool)
    requires
        j < insts.len(),
    ensures
        r == first_instance(insts@, j as int),
{
    let mut k: usize = 0;
    while k < j
        invariant
            j < insts.len(),
            k <= j,
            forall|x: int| 0 <= x < k ==> !(#[trigger] insts@[x].plc_id == insts@[j as int].plc_id && opt_view(insts@[x].device_id) == opt_view(insts@[j as int].device_id)),
        decreases j - k,
    {
        if insts[k].plc_id == insts[j].plc_id {
            let same = match (&insts[k].device_id, &insts[j].device_id) {
                (Some(a), Some(b)) => same_text(a.as_str(), b.as_str()),
                (None, None) => true,
                _ => false,
            };
            if same {
                assert(opt_view(insts@[k as int].device_id) == opt_view(insts@[j as int].device_id));
                return false;
            }
        }
        k = k + 1;
    }
    true
}

/// The devices of the PLC with UUID `u`.
fn devices_of_plc(insts: &Vec<InstRow>, wires: &Vec<PlcWireRow>, u: u128) -> (r: Vec<DeviceConfig>)
    ensures
        views(r@) == plc_devices(insts@, wires@, u, insts.len() as int),
{
    let mut out: Vec<DeviceConfig> = Vec::new();
    let mut k: usize = 0;
    while k < insts.len()
        invariant
            k <= insts.len(),
            views(out@) == plc_devices(insts@, wires@, u, k as int),
        decreases insts.len() - k,
    {
        let inst = &insts[k];
        match &inst.device_id {
            Some(d) => {
                if inst.plc_id == u {
                    let inputs = if is_first_instance(insts, k) {
                        collect_wire_inputs(wires, u, d.as_str())
                    } else {
                        Vec::new()
                    };
                    let dev = DeviceConfig {
                        device_id: d.clone(),
                        name: inst.name.clone(),
                        device_type: inst.dt_name.clone(),
                        input_variables: inputs,
                        tick_ms: None,
                        params: copy_vec(&inst.params),
                    };
                    let ghost before = views(out@);
                    out.push(dev);
                    assert(views(dev.input_variables@) =~= (if first_instance(insts@, k as int) { wire_inputs(wires@, u, d@) } else { Seq::empty() }));
                    assert(views(out@) =~= before.push(dev@));
                }
            },
            None => {},
        }
        k = k + 1;
    }
    out
}

/// The PLC configuration of a row with the given devices.
fn plc_from_row(p: &PlcRow, devices: Vec<DeviceConfig>) -> (r: PlcConfig)
    ensures
        r@ == plc_of_row(*p, views(devices@)),
{
    let plc_id = match &p.plc_id {
        Some(id) => id.clone(),
        None => slugify(p.name.as_str()),
    };
    let port_value: i32 = match p.port {
        Some(x) => x,
        None => 4840,
    };
    PlcConfig {
        plc_id,
        name: p.name.clone(),
        simulated: same_text(p.kind.as_str(), "simulated"),
        protocol: p.protocol.clone(),
        uri: copy_opt_string(&p.endpoint_uri),
        port: port_value as u16,
        endpoint: p.endpoint.clone(),
        deploy_target: copy_opt_string(&p.deploy_node),
        devices,
    }
}

/// Whether PLC row `i` is the first with its UUID.
fn is_first_plc_row(plcs: &Vec<PlcRow>, i: usize) -> (r: bool)
    requires
        i < plcs.len(),
    ensures
        r == first_plc_row(plcs@, i as int),
{
    let mut k: usize = 0;
    while k < i
        invariant
            i < plcs.len(),
            k <= i,
            forall|x: int| 0 <= x < k ==> #[trigger] plcs@[x].id != plcs@[i as int].id,
        decreases i - k,
    {
        if plcs[k].id == plcs[i].id {
            return false;
        }
        k = k + 1;
    }
    true
}

/// The plant from its database rows: one PLC per PLC row (in row order),
/// holding the instances of that PLC that have a device id (in row order),
/// each with the wires into it; the type definitions pass through unchanged.
/// The plant is called "Plant", with id "db" and no description.
pub fn assemble_plant(
    plcs: &Vec<PlcRow>,
    insts: &Vec<InstRow>,
    wires: &Vec<PlcWireRow>,
    device_types: &Vec<DeviceTypeDefinition>,
) -> (r: (PlantConfig, Vec<DeviceTypeDefinition>))
    ensures
        r.0@ == (PlantConfigView {
            plant_id: "db"@,
            name: "Plant"@,
            description: Seq::empty(),
            plcs: assembled_plcs(plcs@, insts@, wires@),
        }),
        views(r.1@) == views(device_types@),
{
    let ghost target = assembled_plcs(plcs@, insts@, wires@);
    let mut out: Vec<PlcConfig> = Vec::new();
    let mut i: usize = 0;
    while i < plcs.len()
        invariant
            target == assembled_plcs(plcs@, insts@, wires@),
            i <= plcs.len(),
            views(out@) == target.take(i as int),
        decreases plcs.len() - i,
    {
        let devices = if is_first_plc_row(plcs, i) {
            devices_of_plc(insts, wires, plcs[i].id)
        } else {
            Vec::new()
        };
        assert(views(devices@) =~= (if first_plc_row(plcs@, i as int) { plc_devices(insts@, wires@, plcs@[i as int].id, insts.len() as int) } else { Seq::empty() }));
        let plc = plc_from_row(&plcs[i], devices);
        assert(plc@ == target[i as int]);
        let ghost before = views(out@);
        out.push(plc);
        assert(views(out@) =~= before.push(target[i as int]));
        assert(views(out@) =~= target.take(i + 1));
        i = i + 1;
    }
    assert(target.take(plcs.len() as int) =~= target);
    let config = PlantConfig {
        plant_id: owned("db"),
        name: owned("Plant"),
        description: String::new(),
        plcs: out,
    };
    (config, copy_vec(device_types))
}

// ============================================================================
// One PLC
// ============================================================================

/// A device instance row of one PLC, with its type definition when the
/// type's stored definition could be read.
pub struct PlcInstRow {
    pub device_id: Option<String>,
    pub name: String,
    pub dt_name: String,
    pub params: Vec<Param>,
    pub io_spec: Option<DeviceTypeDefinition>,
}

/// A wire row into one PLC.
#[derive(Clone, Debug)]
pub struct OnePlcWireRow {
    pub dst_device_id: Option<String>,
    pub dst_input_port: String,
    pub src_device_id: Option<String>,
    pub src_field: Option<String>,
}

/// The wires into device `d`, in row order.
pub open spec fn one_plc_inputs(wires: Seq<OnePlcWireRow>, d: Seq<char>) -> Seq<InputVariableView>
    decreases wires.len(),
{
    if wires.len() == 0 {
        Seq::empty()
    } else {
        let rest = one_plc_inputs(wires.drop_last(), d);
        let w = wires.last();
        match (w.dst_device_id, w.src_device_id, w.src_field) {
            (Some(dd), Some(s), Some(f)) => if dd@ == d {
                rest.push(InputVariableView { name: w.dst_input_port@, source_device_id: s@, source_field: f@ })
            } else {
                rest
            },
            _ => rest,
        }
    }
}

/// The device ids of the first `k` instances that have one.
pub open spec fn ids_before(insts: Seq<PlcInstRow>, k: int) -> Seq<Seq<char>>
    decreases k,
{
    if k <= 0 {
        Seq::empty()
    } else {
        match insts[k - 1].device_id {
            Some(d) => ids_before(insts, k - 1).push(d@),
            None => ids_before(insts, k - 1),
        }
    }
}

/// The type names of the first `k` instances that have a device id.
pub open spec fn types_before(insts: Seq<PlcInstRow>, k: int) -> Seq<Seq<char>>
    decreases k,
{
    if k <= 0 {
        Seq::empty()
    } else {
        match insts[k - 1].device_id {
            Some(_) => types_before(insts, k - 1).push(insts[k - 1].dt_name@),
            None => types_before(insts, k - 1),
        }
    }
}

/// The devices of the first `k` instances: each instance with a device id,
/// in order, with the wires into it when no earlier instance had that id.
pub open spec fn one_plc_devices(insts: Seq<PlcInstRow>, wires: Seq<OnePlcWireRow>, k: int) -> Seq<DeviceConfigView>
    decreases k,
{
    if k <= 0 {
        Seq::empty()
    } else {
        let inst = insts[k - 1];
        match inst.device_id {
            Some(d) => one_plc_devices(insts, wires, k - 1).push(DeviceConfigView {
                device_id: d@,
                name: inst.name@,
                device_type: inst.dt_name@,
                input_variables: if ids_before(insts, k - 1).contains(d@) { Seq::empty() } else { one_plc_inputs(wires, d@) },
                tick_ms: None,
                params: views(inst.params@),
            }),
            None => one_plc_devices(insts, wires, k - 1),
        }
    }
}

/// The type definitions of the first `k` instances: for each instance with a
/// device id whose type name no earlier such instance had, its readable
/// definition, in order.
pub open spec fn one_plc_types(insts: Seq<PlcInstRow>, k: int) -> Seq<DeviceTypeDefinitionView>
    decreases k,
{
    if k <= 0 {
        Seq::empty()
    } else {
        let inst = insts[k - 1];
        let rest = one_plc_types(insts, k - 1);
        match inst.device_id {
            Some(_) => if types_before(insts, k - 1).contains(inst.dt_name@) {
                rest
            } else {
                match inst.io_spec {
                    Some(t) => rest.push(t@),
                    None => rest,
                }
            },
            None => rest,
        }
    }
}

/// A PLC row without its UUID (the row of one known PLC).
#[derive(Clone, Debug)]
pub struct OnePlcRow {
    pub plc_id: Option<String>,
    pub name: String,
    pub kind: String,
    pub deploy_node: Option<String>,
    pub endpoint_uri: Option<String>,
    pub port: Option<i32>,
    pub protocol: String,
    pub endpoint: String,
}

/// The wires into device `d`.
fn one_plc_wire_inputs(wires: &Vec<OnePlcWireRow>, d: &str) -> (r: Vec<InputVariable>)
    ensures
        views(r@) == one_plc_inputs(wires@, d@),
{
    let mut out: Vec<InputVariable> = Vec::new();
    let mut i: usize = 0;
    assert(wires@.take(0) =~= Seq::<OnePlcWireRow>::empty());
    while i < wires.len()
        invariant
            i <= wires.len(),
            views(out@) == one_plc_inputs(wires@.take(i as int), d@),
        decreases wires.len() - i,
    {
        let w = &wires[i];
        assert(wires@.take(i + 1).drop_last() =~= wires@.take(i as int));
        assert(wires@.take(i + 1).last() == *w);
        match (&w.dst_device_id, &w.src_device_id, &w.src_field) {
            (Some(dd), Some(s), Some(f)) => {
                if same_text(dd.as_str(), d) {
                    let iv = InputVariable { name: w.dst_input_port.clone(), source_device_id: s.clone(), source_field: f.clone() };
                    let ghost before = views(out@);
                    out.push(iv);
                    assert(views(out@) =~= before.push(iv@));
                }
            },
            _ => {},
        }
        i = i + 1;
    }
    assert(wires@.take(wires.len() as int) =~= wires@);
    out
}

/// Whether `s` is among `names`.
fn in_names(names: &Vec<String>, s: &str) -> (r: bool)
    ensures
        r == views(names@).contains(s@),
{
    let mut i: usize = 0;
    while i < names.len()
        invariant
            i <= names.len(),
            forall|j: int| 0 <= j < i ==> #[trigger] views(names@)[j] != s@,
        decreases names.len() - i,
    {
        if same_text(names[i].as_str(), s) {
            assert(views(names@)[i as int] == s@);
            return true;
        }
        i = i + 1;
    }
    false
}

/// The configuration of one PLC from its rows: its instances that have a
/// device id (in row order) with the wires into them, and the definitions of
/// the types they use, each type once, in order of first use (a type whose
/// stored definition could not be read is left out).
pub fn assemble_plc(
    p: &OnePlcRow,
    insts: &Vec<PlcInstRow>,
    wires: &Vec<OnePlcWireRow>,
) -> (r: (PlcConfig, Vec<DeviceTypeDefinition>))
    ensures
        r.0@ == (PlcConfigView {
            plc_id: row_slug(p.plc_id, p.name),
            name: p.name@,
            simulated: p.kind@ == "simulated"@,
            protocol: p.protocol@,
            uri: opt_view(p.endpoint_uri),
            port: row_port(p.port),
            endpoint: p.endpoint@,
            deploy_target: opt_view(p.deploy_node),
            devices: one_plc_devices(insts@, wires@, insts.len() as int),
        }),
        views(r.1@) == one_plc_types(insts@, insts.len() as int),
{
    let mut seen_ids: Vec<String> = Vec::new();
    let mut seen_types: Vec<String> = Vec::new();
    let mut device_types: Vec<DeviceTypeDefinition> = Vec::new();
    let mut devices: Vec<DeviceConfig> = Vec::new();
    let mut k: usize = 0;
    while k < insts.len()
        invariant
            k <= insts.len(),
            views(seen_ids@) == ids_before(insts@, k as int),
            views(seen_types@) == types_before(insts@, k as int),
            views(devices@) == one_plc_devices(insts@, wires@, k as int),
            views(device_types@) == one_plc_types(insts@, k as int),
        decreases insts.len() - k,
    {
        let inst = &insts[k];
        match &inst.device_id {
            None => {},
            Some(d) => {
                let first = !in_names(&seen_ids, d.as_str());
                let inputs = if first { one_plc_wire_inputs(wires, d.as_str()) } else { Vec::new() };
                let dev = DeviceConfig {
                    device_id: d.clone(),
                    name: inst.name.clone(),
                    device_type: inst.dt_name.clone(),
                    input_variables: inputs,
                    tick_ms: None,
                    params: copy_vec(&inst.params),
                };
                let ghost dbefore = views(devices@);
                devices.push(dev);
                assert(views(dev.input_variables@) =~= (if ids_before(insts@, k as int).contains(d@) { Seq::empty() } else { one_plc_inputs(wires@, d@) }));
                assert(views(devices@) =~= dbefore.push(dev@));
                let ghost ibefore = views(seen_ids@);
                seen_ids.push(d.clone());
                assert(views(seen_ids@) =~= ibefore.push(d@));

                let new_type = !in_names(&seen_types, inst.dt_name.as_str());
                let ghost tbefore = views(seen_types@);
                seen_types.push(inst.dt_name.clone());
                assert(views(seen_types@) =~= tbefore.push(inst.dt_name@));
                if new_type {
                    match &inst.io_spec {
                        Some(t) => {
                            let ghost before = views(device_types@);
                            let tc = t.deep_copy();
                            device_types.push(tc);
                            assert(views(device_types@) =~= before.push(t@));
                        },
                        None => {},
                    }
                }
            },
        }
        k = k + 1;
    }
    let plc = PlcConfig {
        plc_id: match &p.plc_id {
            Some(id) => id.clone(),
            None => slugify(p.name.as_str()),
        },
        name: p.name.clone(),
        simulated: same_text(p.kind.as_str(), "simulated"),
        protocol: p.protocol.clone(),
        uri: copy_opt_string(&p.endpoint_uri),
        port: (match p.port {
            Some(x) => x,
            None => 4840i32,
        }) as u16,
        endpoint: p.endpoint.clone(),
        deploy_target: copy_opt_string(&p.deploy_node),
        devices,
    };
    (plc, device_types)
}

/// Each PLC of a plant assembled from rows is its row: there is one PLC per
/// PLC row, in row order, carrying the row's endpoint URI unchanged, its
/// name, protocol, endpoint and deploy node, its kind (simulated exactly
/// when the kind is `simulated`), its port (4840 when the row has none, cut
/// to 16 bits) and its PLC id (the slug of its name when it has none).
pub proof fn assembled_plcs_follow_rows(plcs: Seq<PlcRow>, insts: Seq<InstRow>, wires: Seq<PlcWireRow>)
    ensures
        assembled_plcs(plcs, insts, wires).len() == plcs.len(),
        forall|i: int| 0 <= i < plcs.len() ==> {
            let a = #[trigger] assembled_plcs(plcs, insts, wires)[i];
            let p = plcs[i];
            &&& a.uri == (match p.endpoint_uri { Some(u) => Some(u@), None => None })
            &&& a.name == p.name@
            &&& a.protocol == p.protocol@
            &&& a.endpoint == p.endpoint@
            &&& a.deploy_target == (match p.deploy_node { Some(t) => Some(t@), None => None })
            &&& a.simulated == (p.kind@ == "simulated"@)
            &&& a.port == (match p.port { Some(x) => x as u16, None => 4840u16 })
            &&& a.plc_id == (match p.plc_id { Some(x) => x@, None => spec_slugify(p.name@) })
        },
{
}

/// `devs` are the instances of the PLC with UUID `u` that have a device id,
/// picked by `idx` in row order, each picked such instance once: each
/// device has its instance's device id, name, type name and params, and no
/// tick interval.
pub open spec fn devices_of_instances(insts: Seq<InstRow>, u: u128, devs: Seq<DeviceConfigView>, idx: Seq<int>) -> bool {
    &&& idx.len() == devs.len()
    &&& forall|k: int, l: int| 0 <= k < l < idx.len() ==> idx[k] < idx[l]
    &&& forall|k: int| 0 <= k < idx.len() ==> {
        let inst = insts[#[trigger] idx[k]];
        &&& 0 <= idx[k] < insts.len()
        &&& inst.plc_id == u
        &&& inst.device_id is Some
        &&& devs[k].device_id == inst.device_id.unwrap()@
        &&& devs[k].name == inst.name@
        &&& devs[k].device_type == inst.dt_name@
        &&& devs[k].params == views(inst.params@)
        &&& devs[k].tick_ms is None
    }
    &&& forall|j: int| 0 <= j < insts.len() && (#[trigger] insts[j]).plc_id == u && insts[j].device_id is Some ==> idx.contains(j)
}

/// The devices `plc_devices` gives, by index into the instances.
proof fn lemma_plc_devices_select(insts: Seq<InstRow>, wires: Seq<PlcWireRow>, u: u128, k: int) -> (idx: Seq<int>)
    requires
        0 <= k <= insts.len(),
    ensures
        devices_of_instances(insts.take(k), u, plc_devices(insts, wires, u, k), idx),
    decreases k,
{
    if k == 0 {
        Seq::empty()
    } else {
        let prev = lemma_plc_devices_select(insts, wires, u, k - 1);
        let t = insts.take(k);
        let tp = insts.take(k - 1);
        let pd = plc_devices(insts, wires, u, k - 1);
        let d = plc_devices(insts, wires, u, k);
        let inst = insts[k - 1];
        assert forall|j: int| 0 <= j < k - 1 implies #[trigger] t[j] == tp[j] by {}
        if inst.plc_id == u && inst.device_id is Some {
            let idx = prev.push(k - 1);
            assert(d.len() == pd.len() + 1);
            assert forall|q: int| 0 <= q < pd.len() implies #[trigger] d[q] == pd[q] by {}
            assert forall|q: int| 0 <= q < idx.len() implies {
                let i2 = t[#[trigger] idx[q]];
                &&& 0 <= idx[q] < t.len()
                &&& i2.plc_id == u
                &&& i2.device_id is Some
                &&& d[q].device_id == i2.device_id.unwrap()@
                &&& d[q].name == i2.name@
                &&& d[q].device_type == i2.dt_name@
                &&& d[q].params == views(i2.params@)
                &&& d[q].tick_ms is None
            } by {
                if q < prev.len() {
                    assert(idx[q] == prev[q]);
                    assert(t[prev[q]] == tp[prev[q]]);
                }
            }
            assert forall|a: int, b: int| 0 <= a < b < idx.len() implies idx[a] < idx[b] by {
                assert(idx[a] == prev[a]);
                if b < prev.len() {
                    assert(idx[b] == prev[b]);
                }
            }
            assert forall|j: int| 0 <= j < t.len() && (#[trigger] t[j]).plc_id == u && t[j].device_id is Some implies idx.contains(j) by {
                if j < k - 1 {
                    assert(tp[j] == t[j]);
                    let q = choose|q: int| 0 <= q < prev.len() && prev[q] == j;
                    assert(idx[q] == j);
                } else {
                    assert(idx[idx.len() - 1] == j);
                }
            }
            idx
        } else {
            assert(d == pd);
            assert forall|q: int| 0 <= q < prev.len() implies {
                let i2 = t[#[trigger] prev[q]];
                &&& 0 <= prev[q] < t.len()
                &&& i2.plc_id == u
                &&& i2.device_id is Some
                &&& d[q].device_id == i2.device_id.unwrap()@
                &&& d[q].name == i2.name@
                &&& d[q].device_type == i2.dt_name@
                &&& d[q].params == views(i2.params@)
                &&& d[q].tick_ms is None
            } by {
                assert(t[prev[q]] == tp[prev[q]]);
            }
            assert forall|j: int| 0 <= j < t.len() && (#[trigger] t[j]).plc_id == u && t[j].device_id is Some implies prev.contains(j) by {
                assert(j < k - 1);
                assert(tp[j] == t[j]);
            }
            prev
        }
    }
}

/// The devices of an assembled PLC are its instances: for the first row of
/// each PLC UUID, the PLC holds exactly the instances of that UUID that have
/// a device id, in row order, each with its device id, name, type name and
/// params; a later row with the same UUID gets no devices.
pub proof fn assembled_devices_are_instances(plcs: Seq<PlcRow>, insts: Seq<InstRow>, wires: Seq<PlcWireRow>, i: int)
    requires
        0 <= i < plcs.len(),
    ensures
        first_plc_row(plcs, i) ==> exists|idx: Seq<int>|
            #[trigger] devices_of_instances(insts, plcs[i].id, assembled_plcs(plcs, insts, wires)[i].devices, idx),
        !first_plc_row(plcs, i) ==> assembled_plcs(plcs, insts, wires)[i].devices.len() == 0,
{
    if first_plc_row(plcs, i) {
        let idx = lemma_plc_devices_select(insts, wires, plcs[i].id, insts.len() as int);
        assert(insts.take(insts.len() as int) =~= insts);
        assert(devices_of_instances(insts, plcs[i].id, assembled_plcs(plcs, insts, wires)[i].devices, idx));
    }
}

} // verus!
