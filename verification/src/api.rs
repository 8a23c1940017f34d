//! The decisions of the HTTP API: the configuration a simulator fetches at
//! start-up, setpoint writes and the answers of delete requests.
use vstd::prelude::*;
use crate::data::{DataType, DataTypeView, DeepCopy, JsonScalar, views};
use crate::schema::{DeviceTypeDefinition, DeviceTypeDefinitionView, PlcConfig, PlcConfigView};
use crate::resolved::ResolvedDeviceView;
use crate::plant::{ResolvedPlant, first_plc_with_id, plc_ids};
use crate::handle::plc_names;
use crate::lookup::{first_index, lemma_first_index, lemma_first_index_at};
use crate::wiring::{WriteCmd, WriteCmdView};
use crate::text::{concat2, owned, same_text};

verus! {

/// An error answer: an HTTP status code and a message.
#[derive(Clone, Debug)]
pub struct ApiError {
    pub status: u16,
    pub message: String,
}

/// The answer when the request needs the database and none is configured.
pub fn database_unavailable() -> (r: ApiError)
    ensures
        r.status == 503,
        r.message@ == "DATABASE_URL not configured"@,
{
    ApiError { status: 503, message: owned("DATABASE_URL not configured") }
}

/// The answer of a delete: `204 No Content` when a row was deleted, `404`
/// with `not found` when none was.
pub fn delete_status(rows_affected: u64) -> (r: Result<u16, ApiError>)
    ensures
        rows_affected == 0 ==> (r matches Err(e) && e.status == 404 && e.message@ == "not found"@),
        rows_affected != 0 ==> r == Ok::<u16, ApiError>(204),
{
    if rows_affected == 0 {
        Err(ApiError { status: 404, message: owned("not found") })
    } else {
        Ok(204)
    }
}

// ============================================================================
// Simulator configuration
// ============================================================================

/// The integer value of a UUID string in any form the `uuid` crate parses
/// (simple, hyphenated, URN, braced), or `None` when it is no UUID.
pub uninterp spec fn uuid_value(s: Seq<char>) -> Option<u128>;

/// Calls `str::parse::<uuid::Uuid>` and takes the UUID's 128-bit value; the
/// result is the named `uuid_value` of the text.
#[verifier::external_body]
fn parse_uuid(s: &str) -> (r: Option<u128>)
    ensures
        r == uuid_value(s@),
{
    match s.parse::<uuid::Uuid>() {
        Ok(u) => Some(u.as_u128()),
        Err(_) => None,
    }
}

/// How the PLC a simulator asks for is found: in the plant by its id, or
/// (when the request names a UUID) by the name the database gives that UUID,
/// or not at all.
pub enum SimConfigTarget {
    Found(PlcConfig),
    LookUpName(u128),
    NotFound,
}

/// The next step once the request is known not to be a PLC id: look the
/// UUID up, or give up when it is no UUID.
pub fn target_after_parse(parsed: Option<u128>) -> (r: SimConfigTarget)
    ensures
        match parsed {
            Some(u) => r matches SimConfigTarget::LookUpName(v) && v == u,
            None => r is NotFound,
        },
{
    match parsed {
        Some(u) => SimConfigTarget::LookUpName(u),
        None => SimConfigTarget::NotFound,
    }
}

/// Find the PLC a simulator asks for: the first PLC of the plant with that
/// id; otherwise, when the request parses as a UUID, the UUID to look up.
pub fn sim_config_target(plant: &ResolvedPlant, plc_id: &str) -> (r: SimConfigTarget)
    ensures
        match first_plc_with_id(plant@.config.plcs, plc_id@) {
            Some(i) => r matches SimConfigTarget::Found(p) && p@ == plant@.config.plcs[i],
            None => match uuid_value(plc_id@) {
                Some(u) => r matches SimConfigTarget::LookUpName(v) && v == u,
                None => r is NotFound,
            },
        },
{
    let plcs = &plant.config.plcs;
    let ghost pv = views(plcs@);
    let mut i: usize = 0;
    while i < plcs.len()
        invariant
            pv == views(plcs@),
            pv == plant@.config.plcs,
            i <= plcs.len(),
            forall|j: int| 0 <= j < i ==> #[trigger] plc_ids(pv)[j] != plc_id@,
        decreases plcs.len() - i,
    {
        if same_text(plcs[i].plc_id.as_str(), plc_id) {
            proof { lemma_first_index_at(plc_ids(pv), plc_id@, i as int); }
            return SimConfigTarget::Found(plcs[i].deep_copy());
        }
        i = i + 1;
    }
    proof {
        lemma_first_index(plc_ids(pv), plc_id@);
        if first_index(plc_ids(pv), plc_id@) is Some {
            let c = first_index(plc_ids(pv), plc_id@).unwrap();
            assert(plc_ids(pv)[c] != plc_id@);
        }
    }
    target_after_parse(parse_uuid(plc_id))
}

/// The first PLC of the plant with this name.
pub fn plc_by_name(plant: &ResolvedPlant, name: &str) -> (r: Option<PlcConfig>)
    ensures
        match first_index(plc_names(plant@.config.plcs), name@) {
            Some(i) => r matches Some(p) && p@ == plant@.config.plcs[i],
            None => r is None,
        },
{
    let plcs = &plant.config.plcs;
    let ghost pv = views(plcs@);
    let mut i: usize = 0;
    while i < plcs.len()
        invariant
            pv == views(plcs@),
            pv == plant@.config.plcs,
            i <= plcs.len(),
            forall|j: int| 0 <= j < i ==> #[trigger] plc_names(pv)[j] != name@,
        decreases plcs.len() - i,
    {
        if same_text(plcs[i].name.as_str(), name) {
            proof { lemma_first_index_at(plc_names(pv), name@, i as int); }
            return Some(plcs[i].deep_copy());
        }
        i = i + 1;
    }
    proof {
        lemma_first_index(plc_names(pv), name@);
        if first_index(plc_names(pv), name@) is Some {
            let c = first_index(plc_names(pv), name@).unwrap();
            assert(plc_names(pv)[c] != name@);
        }
    }
    None
}

/// Some device of the PLC has this type.
pub open spec fn plc_uses_type(plc: PlcConfigView, t: Seq<char>) -> bool {
    exists|i: int| 0 <= i < plc.devices.len() && #[trigger] plc.devices[i].device_type == t
}

/// The type definitions a simulator of `plc` needs: walking the plant's
/// resolved devices in order, the definition of each type some device of
/// the PLC has, the first time that type is met.
pub open spec fn sim_types(devs: Seq<ResolvedDeviceView>, plc: PlcConfigView, k: int) -> Seq<DeviceTypeDefinitionView>
    decreases k,
{
    if k <= 0 {
        Seq::empty()
    } else {
        let rest = sim_types(devs, plc, k - 1);
        let t = devs[k - 1].type_def;
        if plc_uses_type(plc, t.device_type)
            && !rest.map_values(|x: DeviceTypeDefinitionView| x.device_type).contains(t.device_type) {
            rest.push(t)
        } else {
            rest
        }
    }
}

/// What a simulator receives: its PLC and the type definitions it needs.
pub struct SimConfig {
    pub plc: PlcConfig,
    pub device_types: Vec<DeviceTypeDefinition>,
}

/// Whether some device of the PLC has type `t`.
fn uses_type(plc: &PlcConfig, t: &str) -> (r: bool)
    ensures
        r == plc_uses_type(plc@, t@),
{
    let mut i: usize = 0;
    while i < plc.devices.len()
        invariant
            i <= plc.devices.len(),
            forall|j: int| 0 <= j < i ==> #[trigger] plc@.devices[j].device_type != t@,
        decreases plc.devices.len() - i,
    {
        if same_text(plc.devices[i].device_type.as_str(), t) {
            assert(plc@.devices[i as int].device_type == t@);
            return true;
        }
        i = i + 1;
    }
    false
}

/// Whether some definition in `types` is for type `t`.
fn has_type(types: &Vec<DeviceTypeDefinition>, t: &str) -> (r: bool)
    ensures
        r == views(types@).map_values(|x: DeviceTypeDefinitionView| x.device_type).contains(t@),
{
    let ghost names = views(types@).map_values(|x: DeviceTypeDefinitionView| x.device_type);
    let mut i: usize = 0;
    while i < types.len()
        invariant
            names == views(types@).map_values(|x: DeviceTypeDefinitionView| x.device_type),
            i <= types.len(),
            forall|j: int| 0 <= j < i ==> #[trigger] names[j] != t@,
        decreases types.len() - i,
    {
        if same_text(types[i].device_type.as_str(), t) {
            assert(names[i as int] == t@);
            return true;
        }
        i = i + 1;
    }
    false
}

/// The configuration answer for a simulator: `404` when its PLC was not
/// found, `400` when the PLC is not simulated, else the PLC with the type
/// definitions it needs (see `sim_types`).
pub fn sim_config_result(plant: &ResolvedPlant, found: Option<PlcConfig>, plc_id: &str) -> (r: Result<SimConfig, ApiError>)
    ensures
        match found {
            None => r matches Err(e) && e.status == 404 && e.message@ == "PLC '"@ + plc_id@ + "' not found"@,
            Some(plc) => if !plc.simulated {
                r matches Err(e) && e.status == 400 && e.message@ == "config endpoint is only for simulated PLCs"@
            } else {
                r matches Ok(c) && c.plc@ == plc@
                    && views(c.device_types@) == sim_types(plant@.devices, plc@, plant@.devices.len() as int)
            },
        },
{
    let plc = match found {
        None => {
            let mut m = concat2("PLC '", plc_id);
            m.append("' not found");
            return Err(ApiError { status: 404, message: m });
        },
        Some(p) => p,
    };
    if !plc.simulated {
        return Err(ApiError { status: 400, message: owned("config endpoint is only for simulated PLCs") });
    }
    let devs = &plant.devices;
    let ghost dv = views(devs@);
    let mut types: Vec<DeviceTypeDefinition> = Vec::new();
    let mut k: usize = 0;
    while k < devs.len()
        invariant
            dv == views(devs@),
            dv == plant@.devices,
            k <= devs.len(),
            views(types@) == sim_types(dv, plc@, k as int),
        decreases devs.len() - k,
    {
        let t = &devs[k].type_def;
        assert(t@ == dv[k as int].type_def);
        if uses_type(&plc, t.device_type.as_str()) && !has_type(&types, t.device_type.as_str()) {
            let ghost before = views(types@);
            types.push(t.deep_copy());
            assert(views(types@) =~= before.push(t@));
        }
        k = k + 1;
    }
    Ok(SimConfig { plc, device_types: types })
}

// ============================================================================
// Setpoints
// ============================================================================

/// The value a setpoint request carries: a number is a float, a boolean a
/// boolean, a string a string; anything else is refused.
pub open spec fn spec_setpoint_value(j: JsonScalar) -> Option<DataTypeView> {
    match j {
        JsonScalar::Number(b) => Some(DataTypeView::Float(b)),
        JsonScalar::Bool(b) => Some(DataTypeView::Boolean(b)),
        JsonScalar::Text(s) => Some(DataTypeView::Str(s@)),
        JsonScalar::Other => None,
    }
}

/// The value a setpoint request carries (see `spec_setpoint_value`).
pub fn setpoint_value(j: &JsonScalar) -> (r: Option<DataType>)
    ensures
        match r {
            Some(v) => spec_setpoint_value(*j) == Some(v@),
            None => spec_setpoint_value(*j) is None,
        },
{
    match j {
        JsonScalar::Number(b) => Some(DataType::Float(*b)),
        JsonScalar::Bool(b) => Some(DataType::Boolean(*b)),
        JsonScalar::Text(s) => Some(DataType::Str(s.clone())),
        JsonScalar::Other => None,
    }
}

/// A setpoint write: the write for the connector of `plc_name`, or `404`
/// when no connector has that name. An accepted write is answered `202`.
pub fn setpoint_write(handles: &Vec<String>, plc_name: &str, node_id: String, value: DataType) -> (r: Result<WriteCmd, ApiError>)
    ensures
        views(handles@).contains(plc_name@) ==> (r matches Ok(cmd) && cmd@ == (WriteCmdView { node_id: node_id@, value: value@ })),
        !views(handles@).contains(plc_name@) ==> (r matches Err(e) && e.status == 404
            && e.message@ == "no connector for PLC '"@ + plc_name@ + "'"@),
{
    let mut i: usize = 0;
    while i < handles.len()
        invariant
            i <= handles.len(),
            forall|j: int| 0 <= j < i ==> #[trigger] views(handles@)[j] != plc_name@,
        decreases handles.len() - i,
    {
        if same_text(handles[i].as_str(), plc_name) {
            assert(views(handles@)[i as int] == plc_name@);
            return Ok(WriteCmd { node_id, value });
        }
        i = i + 1;
    }
    let mut m = concat2("no connector for PLC '", plc_name);
    m.append("'");
    Err(ApiError { status: 404, message: m })
}

} // verus!
