//! The runtime handle of a loaded plant: the static configuration, the type
//! registry, the resolved devices and the live field values of every device.
use vstd::prelude::*;
use crate::data::{DataType, DataTypeView, DeepCopy, views, zero_like};
use crate::schema::{
    DeviceMetricView, DeviceTypeDefinition, DeviceTypeDefinitionView, PlantConfig, PlantConfigView,
    PlcConfig, PlcConfigView, PlcEndpointConfig,
};
use crate::resolved::{ResolvedDevice, ResolvedDeviceView};
use crate::resolve::{ConfigError, ConfigErrorView, find_type, find_type_index, resolve_devices, spec_resolve};
use crate::strmap::StrMap;
use crate::plant::{endpoint_configs_for, endpoint_of};
use crate::lookup::{first_index, lemma_first_index, lemma_first_index_at};
use crate::text::{same_text, owned};

verus! {

/// The device type definitions read from the type registry file.
pub struct DeviceTypeRegistry {
    pub types: Vec<DeviceTypeDefinition>,
}

impl DeviceTypeRegistry {
    /// The type definitions, in file order.
    pub fn into_types(self) -> (r: Vec<DeviceTypeDefinition>)
        ensures
            r@ == self.types@,
    {
        self.types
    }
}

/// The plant configuration read from the plant file, with the file's default
/// tick interval.
pub struct PlantRegistry {
    pub config: PlantConfig,
    pub default_tick_ms: u64,
}

impl PlantRegistry {
    /// The plant configuration.
    pub fn into_config(self) -> (r: PlantConfig)
        ensures
            r@ == self.config@,
    {
        self.config
    }
}

/// Live field values: device id → field name → value.
pub type LiveState = StrMap<StrMap<DataType>>;

/// The value a metric starts from: its initial value, or the zero of its
/// kind (the same value its node read starts from, see `read_default`).
pub open spec fn metric_start(m: DeviceMetricView) -> DataTypeView {
    crate::plant::read_default(m)
}

/// The starting fields of a device: each metric's start value under its name
/// (a later metric of the same name wins).
pub open spec fn seed_fields(metrics: Seq<DeviceMetricView>) -> Map<Seq<char>, DataTypeView>
    decreases metrics.len(),
{
    if metrics.len() == 0 {
        Map::empty()
    } else {
        seed_fields(metrics.drop_last()).insert(metrics.last().name, metric_start(metrics.last()))
    }
}

/// The starting live state: each device's starting fields under its id (a
/// later device of the same id wins).
pub open spec fn seed_state(devs: Seq<ResolvedDeviceView>) -> Map<Seq<char>, Map<Seq<char>, DataTypeView>>
    decreases devs.len(),
{
    if devs.len() == 0 {
        Map::empty()
    } else {
        seed_state(devs.drop_last()).insert(devs.last().config.device_id, seed_fields(devs.last().type_def.metrics))
    }
}

/// The ids of the devices, in order.
pub open spec fn device_ids(devs: Seq<ResolvedDeviceView>) -> Seq<Seq<char>> {
    devs.map_values(|d: ResolvedDeviceView| d.config.device_id)
}

/// The names of the PLCs, in order.
pub open spec fn plc_names(plcs: Seq<PlcConfigView>) -> Seq<Seq<char>> {
    plcs.map_values(|p: PlcConfigView| p.name)
}

/// The ids of the PLCs, in order.
pub open spec fn plc_id_seq(plcs: Seq<PlcConfigView>) -> Seq<Seq<char>> {
    plcs.map_values(|p: PlcConfigView| p.plc_id)
}

/// The live value of field `f` of device `d`, if both exist.
pub open spec fn live_field(state: Map<Seq<char>, Map<Seq<char>, DataTypeView>>, d: Seq<char>, f: Seq<char>) -> Option<DataTypeView> {
    if state.contains_key(d) && state[d].contains_key(f) {
        Some(state[d][f])
    } else {
        None
    }
}

/// The handle after setting field `f` of device `d` to `v`: unchanged when
/// the device has no live state.
pub open spec fn after_set_field(h: PlantConfigHandleView, d: Seq<char>, f: Seq<char>, v: DataTypeView) -> PlantConfigHandleView {
    if h.state.contains_key(d) {
        PlantConfigHandleView { state: h.state.insert(d, h.state[d].insert(f, v)), ..h }
    } else {
        h
    }
}

/// Runtime handle for a loaded plant.
pub struct PlantConfigHandle {
    config: PlantConfig,
    registry: Vec<DeviceTypeDefinition>,
    devices: Vec<ResolvedDevice>,
    state: LiveState,
    default_tick_ms: u64,
}

pub struct PlantConfigHandleView {
    pub config: PlantConfigView,
    pub registry: Seq<DeviceTypeDefinitionView>,
    pub devices: Seq<ResolvedDeviceView>,
    pub state: Map<Seq<char>, Map<Seq<char>, DataTypeView>>,
    pub default_tick_ms: u64,
}

impl View for PlantConfigHandle {
    type V = PlantConfigHandleView;

    closed spec fn view(&self) -> PlantConfigHandleView {
        PlantConfigHandleView {
            config: self.config@,
            registry: views(self.registry@),
            devices: views(self.devices@),
            state: self.state@,
            default_tick_ms: self.default_tick_ms,
        }
    }
}

/// The starting fields of one device.
fn seed_device(d: &ResolvedDevice) -> (r: StrMap<DataType>)
    ensures
        r@ == seed_fields(d@.type_def.metrics),
{
    let metrics = &d.type_def.metrics;
    let ghost mv = views(metrics@);
    let mut fields: StrMap<DataType> = StrMap::new();
    assert(mv.take(0) =~= Seq::<DeviceMetricView>::empty());
    let mut i: usize = 0;
    while i < metrics.len()
        invariant
            mv == views(metrics@),
            mv == d@.type_def.metrics,
            i <= metrics.len(),
            fields@ == seed_fields(mv.take(i as int)),
        decreases metrics.len() - i,
    {
        let m = &metrics[i];
        assert(mv.take(i + 1).drop_last() =~= mv.take(i as int));
        assert(mv[i as int] == m@);
        let value = match &m.initial_value {
            Some(v) => v.deep_copy(),
            None => m.data_type.zero_like(),
        };
        fields.insert(m.name.clone(), value);
        i = i + 1;
    }
    assert(mv.take(metrics.len() as int) =~= mv);
    fields
}

impl PlantConfigHandle {
    /// Build the handle from the loaded type registry and plant: every device
    /// is resolved against its type (unknown types and missing required
    /// params are rejected; inputs are not checked here) and the live state
    /// is seeded from each type's metric start values.
    pub fn new(type_registry: DeviceTypeRegistry, plant_store: PlantRegistry) -> (r: Result<PlantConfigHandle, ConfigError>)
        ensures
            match r {
                Ok(h) => h@.config == plant_store.config@
                    && h@.registry == views(type_registry.types@)
                    && spec_resolve(plant_store.config@, views(type_registry.types@), false) == Ok::<Seq<ResolvedDeviceView>, ConfigErrorView>(h@.devices)
                    && h@.state == seed_state(h@.devices)
                    && h@.default_tick_ms == plant_store.default_tick_ms,
                Err(e) => spec_resolve(plant_store.config@, views(type_registry.types@), false) == Err::<Seq<ResolvedDeviceView>, ConfigErrorView>(e@),
            },
    {
        let default_tick_ms = plant_store.default_tick_ms;
        let config = plant_store.into_config();
        let registry = type_registry.into_types();
        let devices = match resolve_devices(&config, &registry, false) {
            Ok(d) => d,
            Err(e) => return Err(e),
        };
        let ghost dv = views(devices@);
        let mut state: LiveState = StrMap::new();
        assert(dv.take(0) =~= Seq::<ResolvedDeviceView>::empty());
        let mut i: usize = 0;
        while i < devices.len()
            invariant
                dv == views(devices@),
                i <= devices.len(),
                state@ == seed_state(dv.take(i as int)),
            decreases devices.len() - i,
        {
            let d = &devices[i];
            assert(dv.take(i + 1).drop_last() =~= dv.take(i as int));
            assert(dv[i as int] == d@);
            let fields = seed_device(d);
            state.insert(d.config.device_id.clone(), fields);
            i = i + 1;
        }
        assert(dv.take(devices.len() as int) =~= dv);
        Ok(PlantConfigHandle { config, registry, devices, state, default_tick_ms })
    }

    // ------------------------------------------------------------------
    // Resolved devices
    // ------------------------------------------------------------------

    /// All resolved devices, in plant order.
    pub fn resolved_devices(&self) -> (r: &Vec<ResolvedDevice>)
        ensures
            views(r@) == self@.devices,
    {
        &self.devices
    }

    /// The first resolved device with this id.
    pub fn get_resolved(&self, device_id: &str) -> (r: Option<&ResolvedDevice>)
        ensures
            match first_index(device_ids(self@.devices), device_id@) {
                Some(i) => r matches Some(d) && d@ == self@.devices[i],
                None => r is None,
            },
    {
        let ghost dv = views(self.devices@);
        let mut i: usize = 0;
        while i < self.devices.len()
            invariant
                dv == views(self.devices@),
                dv == self@.devices,
                i <= self.devices.len(),
                forall|j: int| 0 <= j < i ==> #[trigger] device_ids(dv)[j] != device_id@,
            decreases self.devices.len() - i,
        {
            if same_text(self.devices[i].config.device_id.as_str(), device_id) {
                proof { lemma_first_index_at(device_ids(dv), device_id@, i as int); }
                return Some(&self.devices[i]);
            }
            i = i + 1;
        }
        proof {
            lemma_first_index(device_ids(dv), device_id@);
            if first_index(device_ids(dv), device_id@) is Some {
                let c = first_index(device_ids(dv), device_id@).unwrap();
                assert(device_ids(dv)[c] != device_id@);
            }
        }
        None
    }

    // ------------------------------------------------------------------
    // Live state: reads
    // ------------------------------------------------------------------

    /// The live value of one field of one device.
    pub fn get_field(&self, device_id: &str, field: &str) -> (r: Option<&DataType>)
        ensures
            match r {
                Some(v) => live_field(self@.state, device_id@, field@) == Some(v@),
                None => live_field(self@.state, device_id@, field@) is None,
            },
    {
        match self.state.get(device_id) {
            Some(fields) => fields.get(field),
            None => None,
        }
    }

    /// All live fields of one device.
    pub fn get_device_state(&self, device_id: &str) -> (r: Option<&StrMap<DataType>>)
        ensures
            match r {
                Some(f) => self@.state.contains_key(device_id@) && self@.state[device_id@] == f@,
                None => !self@.state.contains_key(device_id@),
            },
    {
        self.state.get(device_id)
    }

    /// A copy of the whole live state.
    pub fn state_snapshot(&self) -> (r: LiveState)
        ensures
            r@ == self@.state,
    {
        self.state.deep_copy_map()
    }

    // ------------------------------------------------------------------
    // Live state: writes
    // ------------------------------------------------------------------

    /// Set one field of a device; does nothing when the device has no live
    /// state.
    pub fn set_field(&mut self, device_id: &str, field: &str, value: DataType)
        ensures
            final(self)@ == after_set_field(old(self)@, device_id@, field@, value@),
    {
        let updated = match self.state.get(device_id) {
            Some(fields) => {
                let mut f = fields.deep_copy_map();
                f.insert(owned(field), value);
                Some(f)
            },
            None => None,
        };
        match updated {
            Some(f) => {
                self.state.set_existing(device_id, f);
            },
            None => {},
        }
    }

    /// Replace all live fields of a device (adding the device if it had none).
    pub fn set_device_state(&mut self, device_id: &str, fields: StrMap<DataType>)
        ensures
            final(self)@ == (PlantConfigHandleView { state: old(self)@.state.insert(device_id@, fields@), ..old(self)@ }),
    {
        self.state.insert(owned(device_id), fields);
    }

    // ------------------------------------------------------------------
    // Configuration lookups
    // ------------------------------------------------------------------

    /// The first PLC with this id.
    pub fn get_plc_by_id(&self, plc_id: &str) -> (r: Option<&PlcConfig>)
        ensures
            match first_index(plc_id_seq(self@.config.plcs), plc_id@) {
                Some(i) => r matches Some(p) && p@ == self@.config.plcs[i],
                None => r is None,
            },
    {
        let ghost pv = views(self.config.plcs@);
        let mut i: usize = 0;
        while i < self.config.plcs.len()
            invariant
                pv == views(self.config.plcs@),
                pv == self@.config.plcs,
                i <= self.config.plcs.len(),
                forall|j: int| 0 <= j < i ==> #[trigger] plc_id_seq(pv)[j] != plc_id@,
            decreases self.config.plcs.len() - i,
        {
            if same_text(self.config.plcs[i].plc_id.as_str(), plc_id) {
                proof { lemma_first_index_at(plc_id_seq(pv), plc_id@, i as int); }
                return Some(&self.config.plcs[i]);
            }
            i = i + 1;
        }
        proof {
            lemma_first_index(plc_id_seq(pv), plc_id@);
            if first_index(plc_id_seq(pv), plc_id@) is Some {
                let c = first_index(plc_id_seq(pv), plc_id@).unwrap();
                assert(plc_id_seq(pv)[c] != plc_id@);
            }
        }
        None
    }

    /// The first PLC with this name.
    pub fn get_plc_by_name(&self, name: &str) -> (r: Option<&PlcConfig>)
        ensures
            match first_index(plc_names(self@.config.plcs), name@) {
                Some(i) => r matches Some(p) && p@ == self@.config.plcs[i],
                None => r is None,
            },
    {
        let ghost pv = views(self.config.plcs@);
        let mut i: usize = 0;
        while i < self.config.plcs.len()
            invariant
                pv == views(self.config.plcs@),
                pv == self@.config.plcs,
                i <= self.config.plcs.len(),
                forall|j: int| 0 <= j < i ==> #[trigger] plc_names(pv)[j] != name@,
            decreases self.config.plcs.len() - i,
        {
            if same_text(self.config.plcs[i].name.as_str(), name) {
                proof { lemma_first_index_at(plc_names(pv), name@, i as int); }
                return Some(&self.config.plcs[i]);
            }
            i = i + 1;
        }
        proof {
            lemma_first_index(plc_names(pv), name@);
            if first_index(plc_names(pv), name@) is Some {
                let c = first_index(plc_names(pv), name@).unwrap();
                assert(plc_names(pv)[c] != name@);
            }
        }
        None
    }

    /// The definition of a device type (the last one of that name).
    pub fn get_type_def(&self, device_type: &str) -> (r: Option<&DeviceTypeDefinition>)
        ensures
            match find_type(self@.registry, device_type@) {
                Some(i) => r matches Some(t) && t@ == self@.registry[i],
                None => r is None,
            },
    {
        match find_type_index(&self.registry, device_type) {
            Some(i) => {
                proof { crate::resolve::lemma_find_type_in_range(views(self.registry@), device_type@); }
                Some(&self.registry[i])
            },
            None => None,
        }
    }

    // ------------------------------------------------------------------
    // Convenience
    // ------------------------------------------------------------------

    /// The plant's name.
    pub fn plant_name(&self) -> (r: &str)
        ensures
            r@ == self@.config.name,
    {
        self.config.name.as_str()
    }

    /// The plant's default tick interval in milliseconds.
    pub fn default_tick_ms(&self) -> (r: u64)
        ensures
            r == self@.default_tick_ms,
    {
        self.default_tick_ms
    }

    /// All PLCs, in plant order.
    pub fn all_plcs(&self) -> (r: &Vec<PlcConfig>)
        ensures
            views(r@) == self@.config.plcs,
    {
        &self.config.plcs
    }

    /// One endpoint description per PLC (see `ResolvedPlant::endpoint_configs`).
    pub fn endpoint_configs(&self) -> (r: Vec<PlcEndpointConfig>)
        ensures
            views(r@) == self@.config.plcs.map_values(|p: PlcConfigView| endpoint_of(p, self@.devices)),
    {
        endpoint_configs_for(&self.config.plcs, &self.devices)
    }
}

/// Reading a field after setting it: the field of a device with live state
/// reads back the value that was set, and every other field of every device
/// reads as before. Setting a field of a device without live state changes
/// nothing.
pub proof fn set_field_then_get(h: PlantConfigHandleView, d: Seq<char>, f: Seq<char>, v: DataTypeView, d2: Seq<char>, f2: Seq<char>)
    ensures
        live_field(after_set_field(h, d, f, v).state, d2, f2) == if h.state.contains_key(d) && d2 == d && f2 == f {
            Some(v)
        } else {
            live_field(h.state, d2, f2)
        },
{
}

} // verus!
