//! Resolving a plant: every device instance is matched with its type
//! definition and checked against it before the plant is used.
use vstd::prelude::*;
use crate::data::{DeepCopy, views};
use crate::schema::{DeviceConfigView, DeviceTypeDefinition, DeviceTypeDefinitionView, InputVariableView, ParamSpecView, ParamView, PlantConfig, PlantConfigView, PlcConfig, PlcConfigView};
use crate::resolved::{ResolvedDevice, ResolvedDeviceView};
use crate::text::{same_text, concat2};

verus! {

// ============================================================================
// Errors
// ============================================================================

/// Why a plant configuration was rejected.
#[derive(Clone, Debug)]
pub enum ConfigError {
    UnknownType { device_id: String, device_type: String },
    MissingParam { device_id: String, device_type: String, param: String },
    UnknownSource { device_id: String, input: String, source: String },
    CrossPlc { device_id: String, plc_id: String, input: String, source: String, source_plc: String },
    PlcNotFound { plc_id: String },
}

pub enum ConfigErrorView {
    UnknownType { device_id: Seq<char>, device_type: Seq<char> },
    MissingParam { device_id: Seq<char>, device_type: Seq<char>, param: Seq<char> },
    UnknownSource { device_id: Seq<char>, input: Seq<char>, source: Seq<char> },
    CrossPlc { device_id: Seq<char>, plc_id: Seq<char>, input: Seq<char>, source: Seq<char>, source_plc: Seq<char> },
    PlcNotFound { plc_id: Seq<char> },
}

impl View for ConfigError {
    type V = ConfigErrorView;

    open spec fn view(&self) -> ConfigErrorView {
        match self {
            ConfigError::UnknownType { device_id, device_type } =>
                ConfigErrorView::UnknownType { device_id: device_id@, device_type: device_type@ },
            ConfigError::MissingParam { device_id, device_type, param } =>
                ConfigErrorView::MissingParam { device_id: device_id@, device_type: device_type@, param: param@ },
            ConfigError::UnknownSource { device_id, input, source } =>
                ConfigErrorView::UnknownSource { device_id: device_id@, input: input@, source: source@ },
            ConfigError::CrossPlc { device_id, plc_id, input, source, source_plc } =>
                ConfigErrorView::CrossPlc { device_id: device_id@, plc_id: plc_id@, input: input@, source: source@, source_plc: source_plc@ },
            ConfigError::PlcNotFound { plc_id } => ConfigErrorView::PlcNotFound { plc_id: plc_id@ },
        }
    }
}

/// The human-readable text of a configuration error.
pub open spec fn error_text(e: ConfigErrorView) -> Seq<char> {
    match e {
        ConfigErrorView::UnknownType { device_id, device_type } =>
            "Device '"@ + device_id + "' references unknown type '"@ + device_type + "'"@,
        ConfigErrorView::MissingParam { device_id, device_type, param } =>
            "Device '"@ + device_id + "' (type '"@ + device_type + "') is missing required param '"@ + param + "'"@,
        ConfigErrorView::UnknownSource { device_id, input, source } =>
            "Device '"@ + device_id + "' input '"@ + input + "' references unknown source device '"@ + source + "'"@,
        ConfigErrorView::CrossPlc { device_id, plc_id, input, source, source_plc } =>
            "Device '"@ + device_id + "' (on PLC '"@ + plc_id + "') input '"@ + input + "' references device '"@ + source
                + "' on PLC '"@ + source_plc
                + "' \u{2014} cross-PLC physics wiring is not allowed; move one of the devices or expose the value via a separate OPC-UA hop"@,
        ConfigErrorView::PlcNotFound { plc_id } => "PLC '"@ + plc_id + "' not found in plant.json"@,
    }
}

impl ConfigError {
    /// The human-readable text of the error.
    pub fn message(&self) -> (r: String)
        ensures
            r@ == error_text(self@),
    {
        match self {
            ConfigError::UnknownType { device_id, device_type } => {
                let mut r = concat2("Device '", device_id.as_str());
                r.append("' references unknown type '");
                r.append(device_type.as_str());
                r.append("'");
                r
            },
            ConfigError::MissingParam { device_id, device_type, param } => {
                let mut r = concat2("Device '", device_id.as_str());
                r.append("' (type '");
                r.append(device_type.as_str());
                r.append("') is missing required param '");
                r.append(param.as_str());
                r.append("'");
                r
            },
            ConfigError::UnknownSource { device_id, input, source } => {
                let mut r = concat2("Device '", device_id.as_str());
                r.append("' input '");
                r.append(input.as_str());
                r.append("' references unknown source device '");
                r.append(source.as_str());
                r.append("'");
                r
            },
            ConfigError::CrossPlc { device_id, plc_id, input, source, source_plc } => {
                let mut r = concat2("Device '", device_id.as_str());
                r.append("' (on PLC '");
                r.append(plc_id.as_str());
                r.append("') input '");
                r.append(input.as_str());
                r.append("' references device '");
                r.append(source.as_str());
                r.append("' on PLC '");
                r.append(source_plc.as_str());
                r.append("' \u{2014} cross-PLC physics wiring is not allowed; move one of the devices or expose the value via a separate OPC-UA hop");
                r
            },
            ConfigError::PlcNotFound { plc_id } => {
                let mut r = concat2("PLC '", plc_id.as_str());
                r.append("' not found in plant.json");
                r
            },
        }
    }
}

// ============================================================================
// Specification
// ============================================================================

/// Index of the last type definition named `name` (a later definition
/// replaces an earlier one of the same name).
pub open spec fn find_type(types: Seq<DeviceTypeDefinitionView>, name: Seq<char>) -> Option<int>
    decreases types.len(),
{
    if types.len() == 0 {
        None
    } else if types.last().device_type == name {
        Some(types.len() - 1)
    } else {
        find_type(types.drop_last(), name)
    }
}

/// Positions `(plc, device)` of all device instances, PLC by PLC.
pub open spec fn slots(plcs: Seq<PlcConfigView>) -> Seq<(int, int)>
    decreases plcs.len(),
{
    if plcs.len() == 0 {
        Seq::empty()
    } else {
        slots(plcs.drop_last()) + Seq::new(plcs.last().devices.len(), |d: int| (plcs.len() - 1, d))
    }
}

/// The device at a slot.
pub open spec fn device_at(plcs: Seq<PlcConfigView>, s: (int, int)) -> DeviceConfigView {
    plcs[s.0].devices[s.1]
}

/// The PLC index of the last slot (in `sl`) holding a device with id `id`.
pub open spec fn last_owner(plcs: Seq<PlcConfigView>, sl: Seq<(int, int)>, id: Seq<char>) -> Option<int>
    decreases sl.len(),
{
    if sl.len() == 0 {
        None
    } else if device_at(plcs, sl.last()).device_id == id {
        Some(sl.last().0)
    } else {
        last_owner(plcs, sl.drop_last(), id)
    }
}

/// The instance supplies a param of this name.
pub open spec fn has_param(params: Seq<ParamView>, name: Seq<char>) -> bool {
    exists|i: int| 0 <= i < params.len() && #[trigger] params[i].name == name
}

/// The first required param that the instance neither supplies nor has a default for.
pub open spec fn first_missing_param(required: Seq<ParamSpecView>, params: Seq<ParamView>) -> Option<Seq<char>>
    decreases required.len(),
{
    if required.len() == 0 {
        None
    } else {
        match first_missing_param(required.drop_last(), params) {
            Some(n) => Some(n),
            None => if !has_param(params, required.last().name) && required.last().default is None {
                Some(required.last().name)
            } else {
                None
            },
        }
    }
}

/// The first input of the device on PLC `p` that names an unknown device or a
/// device on another PLC.
pub open spec fn first_input_error(plcs: Seq<PlcConfigView>, p: int, dev: DeviceConfigView, inputs: Seq<InputVariableView>) -> Option<ConfigErrorView>
    decreases inputs.len(),
{
    if inputs.len() == 0 {
        None
    } else {
        match first_input_error(plcs, p, dev, inputs.drop_last()) {
            Some(e) => Some(e),
            None => {
                let input = inputs.last();
                match last_owner(plcs, slots(plcs), input.source_device_id) {
                    None => Some(ConfigErrorView::UnknownSource {
                        device_id: dev.device_id,
                        input: input.name,
                        source: input.source_device_id,
                    }),
                    Some(sp) => if plcs[sp].plc_id != plcs[p].plc_id {
                        Some(ConfigErrorView::CrossPlc {
                            device_id: dev.device_id,
                            plc_id: plcs[p].plc_id,
                            input: input.name,
                            source: input.source_device_id,
                            source_plc: plcs[sp].plc_id,
                        })
                    } else {
                        None
                    },
                }
            },
        }
    }
}

/// What is wrong with the device at slot `s`, if anything: an unknown type,
/// then a missing required param, then (when `check_inputs`) a bad input.
pub open spec fn device_error(plcs: Seq<PlcConfigView>, types: Seq<DeviceTypeDefinitionView>, s: (int, int), check_inputs: bool) -> Option<ConfigErrorView> {
    let dev = device_at(plcs, s);
    match find_type(types, dev.device_type) {
        None => Some(ConfigErrorView::UnknownType { device_id: dev.device_id, device_type: dev.device_type }),
        Some(t) => match first_missing_param(types[t].required_params, dev.params) {
            Some(name) => Some(ConfigErrorView::MissingParam { device_id: dev.device_id, device_type: dev.device_type, param: name }),
            None => if check_inputs { first_input_error(plcs, s.0, dev, dev.input_variables) } else { None },
        },
    }
}

/// The resolved device at slot `s` (whose type is known).
pub open spec fn resolved_at(plcs: Seq<PlcConfigView>, types: Seq<DeviceTypeDefinitionView>, s: (int, int)) -> ResolvedDeviceView {
    let dev = device_at(plcs, s);
    ResolvedDeviceView { config: dev, type_def: types[find_type(types, dev.device_type).unwrap()] }
}

/// Resolve the devices at the given slots in order; the first error wins.
pub open spec fn resolve_slots(plcs: Seq<PlcConfigView>, types: Seq<DeviceTypeDefinitionView>, sl: Seq<(int, int)>, check_inputs: bool) -> Result<Seq<ResolvedDeviceView>, ConfigErrorView>
    decreases sl.len(),
{
    if sl.len() == 0 {
        Ok(Seq::empty())
    } else {
        match resolve_slots(plcs, types, sl.drop_last(), check_inputs) {
            Err(e) => Err(e),
            Ok(rs) => match device_error(plcs, types, sl.last(), check_inputs) {
                Some(e) => Err(e),
                None => Ok(rs.push(resolved_at(plcs, types, sl.last()))),
            },
        }
    }
}

// ============================================================================
// Implementation
// ============================================================================

/// Index of the last type definition named `name`.
pub fn find_type_index(types: &Vec<DeviceTypeDefinition>, name: &str) -> (r: Option<usize>)
    ensures
        match r {
            Some(i) => find_type(views(types@), name@) == Some(i as int),
            None => find_type(views(types@), name@) is None,
        },
{
    let mut i = types.len();
    assert(views(types@).take(i as int) =~= views(types@));
    while i > 0
        invariant
            i <= types.len(),
            find_type(views(types@), name@) == find_type(views(types@).take(i as int), name@),
        decreases i,
    {
        let ghost tv = views(types@).take(i as int);
        assert(tv.drop_last() =~= views(types@).take(i - 1));
        if same_text(types[i - 1].device_type.as_str(), name) {
            return Some(i - 1);
        }
        i = i - 1;
    }
    assert(views(types@).take(0) =~= Seq::<DeviceTypeDefinitionView>::empty());
    None
}

/// Slots of the first `p` PLCs followed by the first `d` devices of PLC `p`.
pub open spec fn slot_prefix(plcs: Seq<PlcConfigView>, p: int, d: int) -> Seq<(int, int)> {
    slots(plcs.take(p)) + Seq::new(d as nat, |x: int| (p, x))
}

proof fn lemma_slots_take(plcs: Seq<PlcConfigView>, p: int)
    requires
        0 <= p < plcs.len(),
    ensures
        slots(plcs.take(p + 1)) == slot_prefix(plcs, p, plcs[p].devices.len() as int),
{
    let t = plcs.take(p + 1);
    assert(t.drop_last() =~= plcs.take(p));
    assert(t.last() == plcs[p]);
    assert(Seq::new(t.last().devices.len(), |d: int| (t.len() - 1, d)) =~= Seq::new(plcs[p].devices.len() as nat, |x: int| (p, x)));
}

/// Slots of a prefix of the PLCs stay valid positions in the whole plant.
proof fn lemma_slots_valid(plcs: Seq<PlcConfigView>, p: int)
    requires
        0 <= p <= plcs.len(),
    ensures
        forall|i: int| 0 <= i < slots(plcs.take(p)).len() ==> {
            let s = #[trigger] slots(plcs.take(p))[i];
            0 <= s.0 < p && 0 <= s.1 < plcs[s.0].devices.len()
        },
    decreases p,
{
    if p > 0 {
        lemma_slots_valid(plcs, p - 1);
        lemma_slots_take(plcs, p - 1);
    }
}

/// The PLC index owning device id `id`, scanning the first `p` PLCs and the
/// first `d` devices of PLC `p` (the last occurrence wins).
fn owner_in_prefix(plcs: &Vec<PlcConfig>, id: &str) -> (r: Option<usize>)
    ensures
        match r {
            Some(p) => last_owner(views(plcs@), slots(views(plcs@)), id@) == Some(p as int) && p < plcs.len(),
            None => last_owner(views(plcs@), slots(views(plcs@)), id@) is None,
        },
{
    let ghost pv = views(plcs@);
    let mut result: Option<usize> = None;
    let mut p: usize = 0;
    while p < plcs.len()
        invariant
            pv == views(plcs@),
            p <= plcs.len(),
            match result {
                Some(q) => last_owner(pv, slots(pv.take(p as int)), id@) == Some(q as int) && q < p,
                None => last_owner(pv, slots(pv.take(p as int)), id@) is None,
            },
        decreases plcs.len() - p,
    {
        let devs = &plcs[p].devices;
        let mut d: usize = 0;
        while d < devs.len()
            invariant
                pv == views(plcs@),
                p < plcs.len(),
                devs@ == plcs@[p as int].devices@,
                d <= devs.len(),
                match result {
                    Some(q) => last_owner(pv, slot_prefix(pv, p as int, d as int), id@) == Some(q as int) && q <= p,
                    None => last_owner(pv, slot_prefix(pv, p as int, d as int), id@) is None,
                },
            decreases devs.len() - d,
        {
            let ghost before = slot_prefix(pv, p as int, d as int);
            let ghost after = slot_prefix(pv, p as int, d + 1);
            assert(after.drop_last() =~= before);
            assert(after.last() == (p as int, d as int));
            if same_text(devs[d].device_id.as_str(), id) {
                result = Some(p);
            }
            d = d + 1;
        }
        proof {
            lemma_slots_take(pv, p as int);
        }
        p = p + 1;
    }
    assert(pv.take(plcs.len() as int) =~= pv);
    result
}

/// Whether the instance supplies a param named `name`.
fn param_supplied(params: &Vec<crate::schema::Param>, name: &str) -> (r: bool)
    ensures
        r == has_param(views(params@), name@),
{
    let mut i: usize = 0;
    while i < params.len()
        invariant
            i <= params.len(),
            forall|j: int| 0 <= j < i ==> #[trigger] views(params@)[j].name != name@,
        decreases params.len() - i,
    {
        if same_text(params[i].name.as_str(), name) {
            assert(views(params@)[i as int].name == name@);
            return true;
        }
        i = i + 1;
    }
    false
}

/// Position of the first required param that is neither supplied nor defaulted.
fn first_missing(required: &Vec<crate::schema::ParamSpec>, params: &Vec<crate::schema::Param>) -> (r: Option<usize>)
    ensures
        match r {
            Some(i) => i < required.len() && first_missing_param(views(required@), views(params@)) == Some(required@[i as int].name@),
            None => first_missing_param(views(required@), views(params@)) is None,
        },
{
    let ghost rv = views(required@);
    let mut i: usize = 0;
    while i < required.len()
        invariant
            rv == views(required@),
            i <= required.len(),
            first_missing_param(rv.take(i as int), views(params@)) is None,
        decreases required.len() - i,
    {
        assert(rv.take(i + 1).drop_last() =~= rv.take(i as int));
        if !param_supplied(params, required[i].name.as_str()) && required[i].default.is_none() {
            proof {
                lemma_first_missing_extends(rv, views(params@), i as int + 1);
            }
            return Some(i);
        }
        i = i + 1;
    }
    assert(rv.take(required.len() as int) =~= rv);
    None
}

/// Once a prefix has a missing param, every longer prefix reports the same one.
proof fn lemma_first_missing_extends(rv: Seq<ParamSpecView>, params: Seq<ParamView>, k: int)
    requires
        0 < k <= rv.len(),
        first_missing_param(rv.take(k), params) is Some,
    ensures
        first_missing_param(rv, params) == first_missing_param(rv.take(k), params),
    decreases rv.len() - k,
{
    if k < rv.len() {
        assert(rv.take(k + 1).drop_last() =~= rv.take(k));
        lemma_first_missing_extends(rv, params, k + 1);
    } else {
        assert(rv.take(k) =~= rv);
    }
}

/// Once a prefix of the inputs has an error, the whole list reports the same one.
proof fn lemma_first_input_error_extends(plcs: Seq<PlcConfigView>, p: int, dev: DeviceConfigView, iv: Seq<InputVariableView>, k: int)
    requires
        0 < k <= iv.len(),
        first_input_error(plcs, p, dev, iv.take(k)) is Some,
    ensures
        first_input_error(plcs, p, dev, iv) == first_input_error(plcs, p, dev, iv.take(k)),
    decreases iv.len() - k,
{
    if k < iv.len() {
        assert(iv.take(k + 1).drop_last() =~= iv.take(k));
        lemma_first_input_error_extends(plcs, p, dev, iv, k + 1);
    } else {
        assert(iv.take(k) =~= iv);
    }
}

/// The first bad input of device `d` on PLC `p`.
fn input_error(plcs: &Vec<PlcConfig>, p: usize, d: usize) -> (r: Option<ConfigError>)
    requires
        p < plcs.len(),
        d < plcs@[p as int].devices.len(),
    ensures
        match r {
            Some(e) => first_input_error(views(plcs@), p as int, views(plcs@)[p as int].devices[d as int], views(plcs@)[p as int].devices[d as int].input_variables) == Some(e@),
            None => first_input_error(views(plcs@), p as int, views(plcs@)[p as int].devices[d as int], views(plcs@)[p as int].devices[d as int].input_variables) is None,
        },
{
    let ghost pv = views(plcs@);
    let dev = &plcs[p].devices[d];
    let ghost dv = dev@;
    assert(dv == pv[p as int].devices[d as int]);
    let ghost iv = dv.input_variables;
    let mut k: usize = 0;
    while k < dev.input_variables.len()
        invariant
            pv == views(plcs@),
            p < plcs.len(),
            d < plcs@[p as int].devices.len(),
            dv == dev@,
            dv == pv[p as int].devices[d as int],
            iv == dv.input_variables,
            iv.len() == dev.input_variables.len(),
            k <= dev.input_variables.len(),
            first_input_error(pv, p as int, dv, iv.take(k as int)) is None,
        decreases dev.input_variables.len() - k,
    {
        assert(iv.take(k + 1).drop_last() =~= iv.take(k as int));
        let input = &dev.input_variables[k];
        assert(input@ == iv[k as int]);
        let owner = owner_in_prefix(plcs, input.source_device_id.as_str());
        match owner {
            None => {
                let e = ConfigError::UnknownSource {
                    device_id: dev.device_id.clone(),
                    input: input.name.clone(),
                    source: input.source_device_id.clone(),
                };
                assert(iv.take(k + 1).last() == iv[k as int]);
                assert(first_input_error(pv, p as int, dv, iv.take(k + 1)) == Some(e@));
                proof { lemma_first_input_error_extends(pv, p as int, dv, iv, k + 1); }
                return Some(e);
            },
            Some(sp) => {
                if !same_text(plcs[sp].plc_id.as_str(), plcs[p].plc_id.as_str()) {
                    let e = ConfigError::CrossPlc {
                        device_id: dev.device_id.clone(),
                        plc_id: plcs[p].plc_id.clone(),
                        input: input.name.clone(),
                        source: input.source_device_id.clone(),
                        source_plc: plcs[sp].plc_id.clone(),
                    };
                    assert(iv.take(k + 1).last() == iv[k as int]);
                    assert(first_input_error(pv, p as int, dv, iv.take(k + 1)) == Some(e@));
                    proof { lemma_first_input_error_extends(pv, p as int, dv, iv, k + 1); }
                    return Some(e);
                }
            },
        }
        k = k + 1;
    }
    assert(iv.take(iv.len() as int) =~= iv);
    None
}

/// Check the device at slot `(p, d)`: on success, the index of its type.
fn check_device(plcs: &Vec<PlcConfig>, types: &Vec<DeviceTypeDefinition>, p: usize, d: usize, check_inputs: bool) -> (r: Result<usize, ConfigError>)
    requires
        p < plcs.len(),
        d < plcs@[p as int].devices.len(),
    ensures
        match r {
            Ok(t) => device_error(views(plcs@), views(types@), (p as int, d as int), check_inputs) is None
                && find_type(views(types@), views(plcs@)[p as int].devices[d as int].device_type) == Some(t as int)
                && t < types.len(),
            Err(e) => device_error(views(plcs@), views(types@), (p as int, d as int), check_inputs) == Some(e@),
        },
{
    let ghost pv = views(plcs@);
    let dev = &plcs[p].devices[d];
    assert(dev@ == device_at(pv, (p as int, d as int)));
    match find_type_index(types, dev.device_type.as_str()) {
        None => Err(ConfigError::UnknownType { device_id: dev.device_id.clone(), device_type: dev.device_type.clone() }),
        Some(t) => {
            proof {
                lemma_find_type_in_range(views(types@), dev.device_type@);
            }
            match first_missing(&types[t].required_params, &dev.params) {
                Some(i) => Err(ConfigError::MissingParam {
                    device_id: dev.device_id.clone(),
                    device_type: dev.device_type.clone(),
                    param: types[t].required_params[i].name.clone(),
                }),
                None => {
                    if check_inputs {
                        match input_error(plcs, p, d) {
                            Some(e) => Err(e),
                            None => Ok(t),
                        }
                    } else {
                        Ok(t)
                    }
                },
            }
        },
    }
}

/// `find_type` names a valid index, holding a type of that name.
pub proof fn lemma_find_type_in_range(types: Seq<DeviceTypeDefinitionView>, name: Seq<char>)
    ensures
        find_type(types, name) matches Some(t) ==> 0 <= t < types.len() && types[t].device_type == name,
    decreases types.len(),
{
    if types.len() > 0 {
        lemma_find_type_in_range(types.drop_last(), name);
    }
}

/// Once resolving a prefix of the slots fails, resolving the whole list fails the same way.
proof fn lemma_resolve_err_extends(plcs: Seq<PlcConfigView>, types: Seq<DeviceTypeDefinitionView>, sl: Seq<(int, int)>, k: int, ci: bool)
    requires
        0 <= k <= sl.len(),
        resolve_slots(plcs, types, sl.take(k), ci) is Err,
    ensures
        resolve_slots(plcs, types, sl, ci) == resolve_slots(plcs, types, sl.take(k), ci),
    decreases sl.len() - k,
{
    if k < sl.len() {
        assert(sl.take(k + 1).drop_last() =~= sl.take(k));
        lemma_resolve_err_extends(plcs, types, sl, k + 1, ci);
    } else {
        assert(sl.take(k) =~= sl);
    }
}

/// The outcome of resolving every device of a plant, in PLC order.
pub open spec fn spec_resolve(config: PlantConfigView, types: Seq<DeviceTypeDefinitionView>, check_inputs: bool) -> Result<Seq<ResolvedDeviceView>, ConfigErrorView> {
    resolve_slots(config.plcs, types, slots(config.plcs), check_inputs)
}

/// Resolve every device of the plant in order, stopping at the first error.
pub fn resolve_devices(config: &PlantConfig, types: &Vec<DeviceTypeDefinition>, check_inputs: bool) -> (r: Result<Vec<ResolvedDevice>, ConfigError>)
    ensures
        match r {
            Ok(devs) => spec_resolve(config@, views(types@), check_inputs) == Ok::<Seq<ResolvedDeviceView>, ConfigErrorView>(views(devs@)),
            Err(e) => spec_resolve(config@, views(types@), check_inputs) == Err::<Seq<ResolvedDeviceView>, ConfigErrorView>(e@),
        },
{
    let plcs = &config.plcs;
    let ghost pv = views(plcs@);
    let ghost tv = views(types@);
    let ghost all = slots(pv);
    let mut out: Vec<ResolvedDevice> = Vec::new();
    assert(pv.take(0) =~= Seq::<PlcConfigView>::empty());
    assert(views(out@) =~= Seq::<ResolvedDeviceView>::empty());
    let mut p: usize = 0;
    while p < plcs.len()
        invariant
            pv == views(plcs@),
            tv == views(types@),
            plcs@ == config.plcs@,
            p <= plcs.len(),
            all == slots(pv),
            resolve_slots(pv, tv, slots(pv.take(p as int)), check_inputs) == Ok::<Seq<ResolvedDeviceView>, ConfigErrorView>(views(out@)),
        decreases plcs.len() - p,
    {
        let mut d: usize = 0;
        while d < plcs[p].devices.len()
            invariant
                pv == views(plcs@),
                tv == views(types@),
                plcs@ == config.plcs@,
                p < plcs.len(),
                d <= plcs@[p as int].devices.len(),
                all == slots(pv),
                resolve_slots(pv, tv, slot_prefix(pv, p as int, d as int), check_inputs) == Ok::<Seq<ResolvedDeviceView>, ConfigErrorView>(views(out@)),
            decreases plcs@[p as int].devices.len() - d,
        {
            let ghost before = slot_prefix(pv, p as int, d as int);
            let ghost after = slot_prefix(pv, p as int, d + 1);
            assert(after.drop_last() =~= before);
            assert(after.last() == (p as int, d as int));
            match check_device(plcs, types, p, d, check_inputs) {
                Err(e) => {
                    proof {
                        lemma_slots_take(pv, p as int);
                        lemma_prefix_is_take(pv, p as int, d as int + 1);
                        lemma_resolve_err_extends(pv, tv, all, slot_prefix(pv, p as int, d + 1).len() as int, check_inputs);
                    }
                    return Err(e);
                },
                Ok(t) => {
                    let rd = ResolvedDevice { config: plcs[p].devices[d].deep_copy(), type_def: types[t].deep_copy() };
                    let ghost old_out = views(out@);
                    assert(rd@ == resolved_at(pv, tv, (p as int, d as int)));
                    out.push(rd);
                    assert(views(out@) =~= old_out.push(rd@));
                },
            }
            d = d + 1;
        }
        proof {
            lemma_slots_take(pv, p as int);
        }
        p = p + 1;
    }
    assert(pv.take(plcs.len() as int) =~= pv);
    Ok(out)
}

/// A slot prefix is a prefix of the slots of the whole plant.
proof fn lemma_prefix_is_take(plcs: Seq<PlcConfigView>, p: int, d: int)
    requires
        0 <= p < plcs.len(),
        0 <= d <= plcs[p].devices.len(),
    ensures
        slot_prefix(plcs, p, d).len() <= slots(plcs).len(),
        slot_prefix(plcs, p, d) == slots(plcs).take(slot_prefix(plcs, p, d).len() as int),
{
    lemma_slots_take(plcs, p);
    lemma_slots_prefix_of(plcs, p + 1);
    let full = slots(plcs.take(p + 1));
    let sp = slot_prefix(plcs, p, d);
    assert(full =~= slot_prefix(plcs, p, plcs[p].devices.len() as int));
    assert forall|i: int| 0 <= i < sp.len() implies sp[i] == full[i] by {}
    assert(sp =~= slots(plcs).take(sp.len() as int));
}

/// The slots of the first `p` PLCs are a prefix of the slots of all PLCs.
proof fn lemma_slots_prefix_of(plcs: Seq<PlcConfigView>, p: int)
    requires
        0 <= p <= plcs.len(),
    ensures
        slots(plcs.take(p)).len() <= slots(plcs).len(),
        forall|i: int| 0 <= i < slots(plcs.take(p)).len() ==> #[trigger] slots(plcs)[i] == slots(plcs.take(p))[i],
    decreases plcs.len() - p,
{
    if p == plcs.len() {
        assert(plcs.take(p) =~= plcs);
    } else {
        lemma_slots_prefix_of(plcs, p + 1);
        lemma_slots_take(plcs, p);
        let a = slots(plcs.take(p));
        let b = slots(plcs.take(p + 1));
        assert(b =~= a + Seq::new(plcs[p].devices.len() as nat, |x: int| (p, x)));
        assert forall|i: int| 0 <= i < a.len() implies #[trigger] slots(plcs)[i] == a[i] by {
            assert(b[i] == a[i]);
        }
    }
}

// ============================================================================
// Laws
// ============================================================================

/// The device with id `id` (the last one with it) is on a PLC with id `plc_id`.
pub open spec fn source_on_plc(plcs: Seq<PlcConfigView>, id: Seq<char>, plc_id: Seq<char>) -> bool {
    match last_owner(plcs, slots(plcs), id) {
        Some(sp) => plcs[sp].plc_id == plc_id,
        None => false,
    }
}

/// With no input error, every input reads from a known device on the same PLC.
proof fn lemma_no_input_error(plcs: Seq<PlcConfigView>, p: int, dev: DeviceConfigView, inputs: Seq<InputVariableView>)
    requires
        first_input_error(plcs, p, dev, inputs) is None,
    ensures
        forall|k: int| 0 <= k < inputs.len() ==>
            #[trigger] source_on_plc(plcs, inputs[k].source_device_id, plcs[p].plc_id),
    decreases inputs.len(),
{
    if inputs.len() > 0 {
        lemma_no_input_error(plcs, p, dev, inputs.drop_last());
        assert forall|k: int| 0 <= k < inputs.len() implies
            #[trigger] source_on_plc(plcs, inputs[k].source_device_id, plcs[p].plc_id) by {
            if k < inputs.len() - 1 {
                assert(inputs[k] == inputs.drop_last()[k]);
            }
        }
    }
}

/// What resolving the slots `sl` gives when it succeeds: one device per
/// slot, each the slot's instance with the last definition of its type,
/// with no missing required param and, when inputs are checked, every input
/// reading from a device on the instance's own PLC.
proof fn lemma_resolve_slots_ok(plcs: Seq<PlcConfigView>, types: Seq<DeviceTypeDefinitionView>, sl: Seq<(int, int)>, ci: bool)
    requires
        resolve_slots(plcs, types, sl, ci) is Ok,
    ensures
        ({
            let devs = resolve_slots(plcs, types, sl, ci)->Ok_0;
            &&& devs.len() == sl.len()
            &&& forall|i: int| 0 <= i < sl.len() ==> {
                &&& #[trigger] devs[i] == resolved_at(plcs, types, sl[i])
                &&& device_error(plcs, types, sl[i], ci) is None
            }
        }),
    decreases sl.len(),
{
    if sl.len() > 0 {
        lemma_resolve_slots_ok(plcs, types, sl.drop_last(), ci);
        let devs = resolve_slots(plcs, types, sl, ci)->Ok_0;
        let prev = resolve_slots(plcs, types, sl.drop_last(), ci)->Ok_0;
        assert(devs == prev.push(resolved_at(plcs, types, sl.last())));
        assert forall|i: int| 0 <= i < sl.len() implies {
            &&& #[trigger] devs[i] == resolved_at(plcs, types, sl[i])
            &&& device_error(plcs, types, sl[i], ci) is None
        } by {
            if i < sl.len() - 1 {
                assert(devs[i] == prev[i]);
                assert(sl[i] == sl.drop_last()[i]);
            }
        }
    }
}

/// A resolved plant is valid: it has one resolved device per device
/// instance, in PLC order; each is its instance together with the (last)
/// definition of the instance's type; each supplies every required param
/// that has no default; and, when inputs are checked, each input reads from
/// a known device on the instance's own PLC.
pub proof fn resolved_plant_is_valid(config: PlantConfigView, types: Seq<DeviceTypeDefinitionView>, check_inputs: bool)
    requires
        spec_resolve(config, types, check_inputs) is Ok,
    ensures
        ({
            let devs = spec_resolve(config, types, check_inputs)->Ok_0;
            let sl = slots(config.plcs);
            &&& devs.len() == sl.len()
            &&& forall|i: int| 0 <= i < sl.len() ==> {
                let d = #[trigger] devs[i];
                let s = sl[i];
                &&& d.config == config.plcs[s.0].devices[s.1]
                &&& find_type(types, d.config.device_type) matches Some(t) && types[t] == d.type_def
                &&& d.type_def.device_type == d.config.device_type
                &&& first_missing_param(d.type_def.required_params, d.config.params) is None
                &&& check_inputs ==> forall|k: int| 0 <= k < d.config.input_variables.len() ==>
                    #[trigger] source_on_plc(config.plcs, d.config.input_variables[k].source_device_id, config.plcs[s.0].plc_id)
            }
        }),
{
    let plcs = config.plcs;
    let sl = slots(plcs);
    lemma_resolve_slots_ok(plcs, types, sl, check_inputs);
    let devs = spec_resolve(config, types, check_inputs)->Ok_0;
    assert forall|i: int| 0 <= i < sl.len() implies {
        let d = #[trigger] devs[i];
        let s = sl[i];
        &&& d.config == plcs[s.0].devices[s.1]
        &&& find_type(types, d.config.device_type) matches Some(t) && types[t] == d.type_def
        &&& d.type_def.device_type == d.config.device_type
        &&& first_missing_param(d.type_def.required_params, d.config.params) is None
        &&& check_inputs ==> forall|k: int| 0 <= k < d.config.input_variables.len() ==>
            #[trigger] source_on_plc(plcs, d.config.input_variables[k].source_device_id, plcs[s.0].plc_id)
    } by {
        let d = devs[i];
        let s = sl[i];
        assert(devs[i] == resolved_at(plcs, types, s));
        assert(device_error(plcs, types, s, check_inputs) is None);
        lemma_find_type_in_range(types, d.config.device_type);
        if check_inputs {
            lemma_no_input_error(plcs, s.0, device_at(plcs, s), device_at(plcs, s).input_variables);
        }
    }
}

} // verus!
