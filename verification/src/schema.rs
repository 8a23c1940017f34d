//! The plant model: device type definitions (the "classes") and the
//! plant → PLC → device hierarchy (the instances), with their views.
use vstd::prelude::*;
use crate::data::{DataType, DataTypeView, DeepCopy, FunctionKind, FunctionKindView, PhysicsMode, copy_vec, views, copy_opt_string, opt_view};

verus! {

// ============================================================================
// Device type registry
// ============================================================================

/// A param that an instance must provide; `default` is an `f64` bit pattern.
#[derive(Clone, Debug)]
pub struct ParamSpec {
    pub name: String,
    pub description: String,
    pub default: Option<u64>,
}

pub struct ParamSpecView {
    pub name: Seq<char>,
    pub description: Seq<char>,
    pub default: Option<u64>,
}

impl View for ParamSpec {
    type V = ParamSpecView;

    open spec fn view(&self) -> ParamSpecView {
        ParamSpecView { name: self.name@, description: self.description@, default: self.default }
    }
}

impl DeepCopy for ParamSpec {
    fn deep_copy(&self) -> (r: ParamSpec) {
        ParamSpec { name: self.name.clone(), description: self.description.clone(), default: self.default }
    }
}

/// A named control function exposed by a device type.
#[derive(Clone, Debug)]
pub struct DeviceFunctionConfig {
    pub name: String,
    pub description: String,
    pub kind: FunctionKind,
}

pub struct DeviceFunctionConfigView {
    pub name: Seq<char>,
    pub description: Seq<char>,
    pub kind: FunctionKindView,
}

impl View for DeviceFunctionConfig {
    type V = DeviceFunctionConfigView;

    open spec fn view(&self) -> DeviceFunctionConfigView {
        DeviceFunctionConfigView { name: self.name@, description: self.description@, kind: self.kind@ }
    }
}

impl DeepCopy for DeviceFunctionConfig {
    fn deep_copy(&self) -> (r: DeviceFunctionConfig) {
        DeviceFunctionConfig { name: self.name.clone(), description: self.description.clone(), kind: self.kind.deep_copy() }
    }
}

/// An observable metric of a device type: its kind and its initial value.
#[derive(Clone, Debug)]
pub struct DeviceMetric {
    pub name: String,
    pub description: String,
    pub data_type: DataType,
    pub initial_value: Option<DataType>,
}

pub struct DeviceMetricView {
    pub name: Seq<char>,
    pub description: Seq<char>,
    pub data_type: DataTypeView,
    pub initial_value: Option<DataTypeView>,
}

/// The view of an optional value.
pub open spec fn opt_data_view(v: Option<DataType>) -> Option<DataTypeView> {
    match v {
        Some(x) => Some(x@),
        None => None,
    }
}

impl View for DeviceMetric {
    type V = DeviceMetricView;

    open spec fn view(&self) -> DeviceMetricView {
        DeviceMetricView {
            name: self.name@,
            description: self.description@,
            data_type: self.data_type@,
            initial_value: opt_data_view(self.initial_value),
        }
    }
}

impl DeepCopy for DeviceMetric {
    fn deep_copy(&self) -> (r: DeviceMetric) {
        let initial_value = match &self.initial_value {
            Some(v) => Some(v.deep_copy()),
            None => None,
        };
        DeviceMetric {
            name: self.name.clone(),
            description: self.description.clone(),
            data_type: self.data_type.deep_copy(),
            initial_value,
        }
    }
}

/// Definition of a device type, which instances reference by `device_type`.
#[derive(Clone, Debug)]
pub struct DeviceTypeDefinition {
    pub device_type: String,
    pub physics_mode: PhysicsMode,
    pub physics_definition: Option<String>,
    pub functions: Vec<DeviceFunctionConfig>,
    pub metrics: Vec<DeviceMetric>,
    pub required_params: Vec<ParamSpec>,
}

pub struct DeviceTypeDefinitionView {
    pub device_type: Seq<char>,
    pub physics_mode: PhysicsMode,
    pub physics_definition: Option<Seq<char>>,
    pub functions: Seq<DeviceFunctionConfigView>,
    pub metrics: Seq<DeviceMetricView>,
    pub required_params: Seq<ParamSpecView>,
}

impl View for DeviceTypeDefinition {
    type V = DeviceTypeDefinitionView;

    open spec fn view(&self) -> DeviceTypeDefinitionView {
        DeviceTypeDefinitionView {
            device_type: self.device_type@,
            physics_mode: self.physics_mode,
            physics_definition: opt_view(self.physics_definition),
            functions: views(self.functions@),
            metrics: views(self.metrics@),
            required_params: views(self.required_params@),
        }
    }
}

impl DeepCopy for DeviceTypeDefinition {
    fn deep_copy(&self) -> (r: DeviceTypeDefinition) {
        DeviceTypeDefinition {
            device_type: self.device_type.clone(),
            physics_mode: self.physics_mode,
            physics_definition: copy_opt_string(&self.physics_definition),
            functions: copy_vec(&self.functions),
            metrics: copy_vec(&self.metrics),
            required_params: copy_vec(&self.required_params),
        }
    }
}

// ============================================================================
// Plant → PLC → device hierarchy
// ============================================================================

/// Where a device reads an input value from: another device's field.
#[derive(Clone, Debug)]
pub struct InputVariable {
    pub name: String,
    pub source_device_id: String,
    pub source_field: String,
}

pub struct InputVariableView {
    pub name: Seq<char>,
    pub source_device_id: Seq<char>,
    pub source_field: Seq<char>,
}

impl View for InputVariable {
    type V = InputVariableView;

    open spec fn view(&self) -> InputVariableView {
        InputVariableView { name: self.name@, source_device_id: self.source_device_id@, source_field: self.source_field@ }
    }
}

impl DeepCopy for InputVariable {
    fn deep_copy(&self) -> (r: InputVariable) {
        InputVariable {
            name: self.name.clone(),
            source_device_id: self.source_device_id.clone(),
            source_field: self.source_field.clone(),
        }
    }
}

/// One named numeric param of a device instance (value as an `f64` bit pattern).
#[derive(Clone, Debug)]
pub struct Param {
    pub name: String,
    pub value: u64,
}

pub struct ParamView {
    pub name: Seq<char>,
    pub value: u64,
}

impl View for Param {
    type V = ParamView;

    open spec fn view(&self) -> ParamView {
        ParamView { name: self.name@, value: self.value }
    }
}

impl DeepCopy for Param {
    fn deep_copy(&self) -> (r: Param) {
        Param { name: self.name.clone(), value: self.value }
    }
}

/// A device instance attached to a PLC.
#[derive(Clone, Debug)]
pub struct DeviceConfig {
    pub device_id: String,
    pub name: String,
    pub device_type: String,
    pub input_variables: Vec<InputVariable>,
    pub tick_ms: Option<u64>,
    pub params: Vec<Param>,
}

pub struct DeviceConfigView {
    pub device_id: Seq<char>,
    pub name: Seq<char>,
    pub device_type: Seq<char>,
    pub input_variables: Seq<InputVariableView>,
    pub tick_ms: Option<u64>,
    pub params: Seq<ParamView>,
}

impl View for DeviceConfig {
    type V = DeviceConfigView;

    open spec fn view(&self) -> DeviceConfigView {
        DeviceConfigView {
            device_id: self.device_id@,
            name: self.name@,
            device_type: self.device_type@,
            input_variables: views(self.input_variables@),
            tick_ms: self.tick_ms,
            params: views(self.params@),
        }
    }
}

impl DeepCopy for DeviceConfig {
    fn deep_copy(&self) -> (r: DeviceConfig) {
        DeviceConfig {
            device_id: self.device_id.clone(),
            name: self.name.clone(),
            device_type: self.device_type.clone(),
            input_variables: copy_vec(&self.input_variables),
            tick_ms: self.tick_ms,
            params: copy_vec(&self.params),
        }
    }
}

/// A PLC: the OPC-UA endpoint that a group of devices belongs to.
#[derive(Clone, Debug)]
pub struct PlcConfig {
    pub plc_id: String,
    pub name: String,
    pub simulated: bool,
    pub protocol: String,
    pub uri: Option<String>,
    pub port: u16,
    pub endpoint: String,
    pub deploy_target: Option<String>,
    pub devices: Vec<DeviceConfig>,
}

pub struct PlcConfigView {
    pub plc_id: Seq<char>,
    pub name: Seq<char>,
    pub simulated: bool,
    pub protocol: Seq<char>,
    pub uri: Option<Seq<char>>,
    pub port: u16,
    pub endpoint: Seq<char>,
    pub deploy_target: Option<Seq<char>>,
    pub devices: Seq<DeviceConfigView>,
}

impl View for PlcConfig {
    type V = PlcConfigView;

    open spec fn view(&self) -> PlcConfigView {
        PlcConfigView {
            plc_id: self.plc_id@,
            name: self.name@,
            simulated: self.simulated,
            protocol: self.protocol@,
            uri: opt_view(self.uri),
            port: self.port,
            endpoint: self.endpoint@,
            deploy_target: opt_view(self.deploy_target),
            devices: views(self.devices@),
        }
    }
}

impl DeepCopy for PlcConfig {
    fn deep_copy(&self) -> (r: PlcConfig) {
        PlcConfig {
            plc_id: self.plc_id.clone(),
            name: self.name.clone(),
            simulated: self.simulated,
            protocol: self.protocol.clone(),
            uri: copy_opt_string(&self.uri),
            port: self.port,
            endpoint: self.endpoint.clone(),
            deploy_target: copy_opt_string(&self.deploy_target),
            devices: copy_vec(&self.devices),
        }
    }
}

/// Top-level plant configuration.
#[derive(Clone, Debug)]
pub struct PlantConfig {
    pub plant_id: String,
    pub name: String,
    pub description: String,
    pub plcs: Vec<PlcConfig>,
}

pub struct PlantConfigView {
    pub plant_id: Seq<char>,
    pub name: Seq<char>,
    pub description: Seq<char>,
    pub plcs: Seq<PlcConfigView>,
}

impl View for PlantConfig {
    type V = PlantConfigView;

    open spec fn view(&self) -> PlantConfigView {
        PlantConfigView {
            plant_id: self.plant_id@,
            name: self.name@,
            description: self.description@,
            plcs: views(self.plcs@),
        }
    }
}

impl DeepCopy for PlantConfig {
    fn deep_copy(&self) -> (r: PlantConfig) {
        PlantConfig {
            plant_id: self.plant_id.clone(),
            name: self.name.clone(),
            description: self.description.clone(),
            plcs: copy_vec(&self.plcs),
        }
    }
}

// ============================================================================
// Connector contract
// ============================================================================

/// Spec for one node a connector polls each tick.
#[derive(Clone, Debug)]
pub struct NodeReadConfig {
    pub device_id: String,
    pub metric_name: String,
    pub node_id: String,
    pub data_type: DataType,
}

pub struct NodeReadConfigView {
    pub device_id: Seq<char>,
    pub metric_name: Seq<char>,
    pub node_id: Seq<char>,
    pub data_type: DataTypeView,
}

impl View for NodeReadConfig {
    type V = NodeReadConfigView;

    open spec fn view(&self) -> NodeReadConfigView {
        NodeReadConfigView {
            device_id: self.device_id@,
            metric_name: self.metric_name@,
            node_id: self.node_id@,
            data_type: self.data_type@,
        }
    }
}

/// Everything a connector needs to poll one endpoint.
#[derive(Clone, Debug)]
pub struct PlcEndpointConfig {
    pub name: String,
    pub protocol: String,
    pub url: String,
    pub node_reads: Vec<NodeReadConfig>,
}

pub struct PlcEndpointConfigView {
    pub name: Seq<char>,
    pub protocol: Seq<char>,
    pub url: Seq<char>,
    pub node_reads: Seq<NodeReadConfigView>,
}

impl View for PlcEndpointConfig {
    type V = PlcEndpointConfigView;

    open spec fn view(&self) -> PlcEndpointConfigView {
        PlcEndpointConfigView {
            name: self.name@,
            protocol: self.protocol@,
            url: self.url@,
            node_reads: views(self.node_reads@),
        }
    }
}

} // verus!
