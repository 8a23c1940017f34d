use factory_sim::data::{DataType, PhysicsMode};
use factory_sim::schema::{
    DeviceConfig, DeviceMetric, DeviceTypeDefinition, InputVariable, Param, ParamSpec, PlantConfig, PlcConfig,
};
use factory_sim::plant::ResolvedPlant;

fn metric(name: &str, initial: Option<DataType>) -> DeviceMetric {
    DeviceMetric {
        name: name.to_string(),
        description: String::new(),
        data_type: DataType::Float(0),
        initial_value: initial,
    }
}

fn boiler_type() -> DeviceTypeDefinition {
    DeviceTypeDefinition {
        device_type: "boiler".to_string(),
        physics_mode: PhysicsMode::Simulation,
        physics_definition: Some("state.temperature += dt;".to_string()),
        functions: vec![],
        metrics: vec![metric("temperature", Some(DataType::Float(20.0f64.to_bits()))), metric("pressure", None)],
        required_params: vec![ParamSpec { name: "capacity".to_string(), description: String::new(), default: None }],
    }
}

fn valve_type() -> DeviceTypeDefinition {
    DeviceTypeDefinition {
        device_type: "valve".to_string(),
        physics_mode: PhysicsMode::Simulation,
        physics_definition: None,
        functions: vec![],
        metrics: vec![metric("inlet_pressure", None)],
        required_params: vec![ParamSpec { name: "diameter".to_string(), description: String::new(), default: Some(1.0f64.to_bits()) }],
    }
}

fn device(id: &str, ty: &str, inputs: Vec<InputVariable>, params: Vec<Param>) -> DeviceConfig {
    DeviceConfig {
        device_id: id.to_string(),
        name: id.to_string(),
        device_type: ty.to_string(),
        input_variables: inputs,
        tick_ms: None,
        params,
    }
}

fn input(name: &str, src: &str, field: &str) -> InputVariable {
    InputVariable { name: name.to_string(), source_device_id: src.to_string(), source_field: field.to_string() }
}

fn plc(id: &str, name: &str, simulated: bool, devices: Vec<DeviceConfig>) -> PlcConfig {
    PlcConfig {
        plc_id: id.to_string(),
        name: name.to_string(),
        simulated,
        protocol: "opcua".to_string(),
        uri: None,
        port: 4840,
        endpoint: "/".to_string(),
        deploy_target: None,
        devices,
    }
}

fn sample_plant() -> PlantConfig {
    let boiler = device("boiler_001", "boiler", vec![], vec![Param { name: "capacity".to_string(), value: 5.0f64.to_bits() }]);
    let valve = device("valve_001", "valve", vec![input("inlet_pressure", "boiler_001", "pressure")], vec![]);
    let other = device("boiler_002", "boiler", vec![], vec![Param { name: "capacity".to_string(), value: 1.0f64.to_bits() }]);
    PlantConfig {
        plant_id: "p".to_string(),
        name: "Demo".to_string(),
        description: String::new(),
        plcs: vec![
            plc("plc-001", "HeatingPLC", true, vec![boiler, valve]),
            plc("plc-002", "OtherPLC", false, vec![other]),
        ],
    }
}

#[test]
fn build_resolves_every_device() {
    let plant = ResolvedPlant::build(sample_plant(), vec![boiler_type(), valve_type()]).ok().unwrap();
    assert_eq!(plant.devices.len(), 3);
    assert_eq!(plant.devices[1].config.device_id, "valve_001");
    assert_eq!(plant.devices[1].type_def.device_type, "valve");
}

#[test]
fn build_rejects_unknown_type() {
    let err = ResolvedPlant::build(sample_plant(), vec![boiler_type()]).err().unwrap();
    assert_eq!(err.message(), "Device 'valve_001' references unknown type 'valve'");
}

#[test]
fn build_rejects_missing_param() {
    let mut p = sample_plant();
    p.plcs[0].devices[0].params.clear();
    let err = ResolvedPlant::build(p, vec![boiler_type(), valve_type()]).err().unwrap();
    assert_eq!(err.message(), "Device 'boiler_001' (type 'boiler') is missing required param 'capacity'");
}

#[test]
fn build_rejects_unknown_source() {
    let mut p = sample_plant();
    p.plcs[0].devices[1].input_variables[0].source_device_id = "ghost".to_string();
    let err = ResolvedPlant::build(p, vec![boiler_type(), valve_type()]).err().unwrap();
    assert_eq!(err.message(), "Device 'valve_001' input 'inlet_pressure' references unknown source device 'ghost'");
}

#[test]
fn build_rejects_cross_plc_wiring() {
    let mut p = sample_plant();
    p.plcs[0].devices[1].input_variables[0].source_device_id = "boiler_002".to_string();
    let err = ResolvedPlant::build(p, vec![boiler_type(), valve_type()]).err().unwrap();
    assert_eq!(
        err.message(),
        "Device 'valve_001' (on PLC 'plc-001') input 'inlet_pressure' references device 'boiler_002' on PLC 'plc-002' \u{2014} cross-PLC physics wiring is not allowed; move one of the devices or expose the value via a separate OPC-UA hop"
    );
}

#[test]
fn later_type_definition_wins() {
    let mut second = boiler_type();
    second.metrics.clear();
    let plant = ResolvedPlant::build(sample_plant(), vec![boiler_type(), valve_type(), second]).ok().unwrap();
    assert_eq!(plant.devices[0].type_def.metrics.len(), 0);
}

#[test]
fn endpoint_configs_list_metric_reads() {
    let plant = ResolvedPlant::build(sample_plant(), vec![boiler_type(), valve_type()]).ok().unwrap();
    let eps = plant.endpoint_configs();
    assert_eq!(eps.len(), 2);
    assert_eq!(eps[0].name, "HeatingPLC");
    assert_eq!(eps[0].url, "opc.tcp://plc-001:4840/");
    assert_eq!(eps[0].node_reads.len(), 3);
    assert_eq!(eps[0].node_reads[0].node_id, "ns=2;s=HeatingPLC.boiler_001.temperature");
    assert!(matches!(eps[0].node_reads[0].data_type, DataType::Float(b) if b == 20.0f64.to_bits()));
    assert!(matches!(eps[0].node_reads[1].data_type, DataType::Float(0)));
    assert_eq!(eps[0].node_reads[2].node_id, "ns=2;s=HeatingPLC.valve_001.inlet_pressure");
    assert_eq!(eps[1].node_reads.len(), 2);
    assert_eq!(eps[1].node_reads[0].device_id, "boiler_002");
}

#[test]
fn configured_uri_is_used() {
    let mut p = sample_plant();
    p.plcs[1].uri = Some("opc.tcp://10.0.0.5".to_string());
    p.plcs[1].port = 4841;
    p.plcs[1].endpoint = "/plc".to_string();
    assert_eq!(p.plcs[1].endpoint_url(), "opc.tcp://10.0.0.5:4841/plc");
    assert_eq!(p.plcs[0].endpoint_uri(), "opc.tcp://plc-001");
}

#[test]
fn slice_keeps_one_plc_and_its_devices() {
    let plant = ResolvedPlant::build(sample_plant(), vec![boiler_type(), valve_type()]).ok().unwrap();
    let before = plant.endpoint_configs();
    let sliced = plant.slice_to_plc("plc-001").ok().unwrap();
    assert_eq!(sliced.config.plcs.len(), 1);
    assert_eq!(sliced.devices.len(), 2);
    let after = sliced.endpoint_configs();
    assert_eq!(after.len(), 1);
    assert_eq!(after[0].url, before[0].url);
    assert_eq!(after[0].node_reads.len(), before[0].node_reads.len());
    for (a, b) in after[0].node_reads.iter().zip(before[0].node_reads.iter()) {
        assert_eq!(a.node_id, b.node_id);
    }
}

#[test]
fn slice_to_unknown_plc_fails() {
    let plant = ResolvedPlant::build(sample_plant(), vec![boiler_type(), valve_type()]).ok().unwrap();
    let err = plant.slice_to_plc("plc-404").err().unwrap();
    assert_eq!(err.message(), "PLC 'plc-404' not found in plant.json");
}

#[test]
fn node_id_format() {
    assert_eq!(factory_sim::plant::node_id_for("P", "d", "m"), "ns=2;s=P.d.m");
}
