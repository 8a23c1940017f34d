use factory_sim::api::{
    delete_status, plc_by_name, setpoint_value, setpoint_write, sim_config_result, sim_config_target, SimConfigTarget,
};
use factory_sim::data::{data_type_from_json, DataType, JsonScalar, PhysicsMode};
use factory_sim::loader::{assemble_plant, assemble_plc, InstRow, OnePlcRow, OnePlcWireRow, PlcInstRow, PlcRow, PlcWireRow};
use factory_sim::models::{PlcKind, Topology};
use factory_sim::physics::{apply_script_output, ScriptValue};
use factory_sim::plant::ResolvedPlant;
use factory_sim::schema::{DeviceTypeDefinition, Param};
use factory_sim::server::{collect_node_updates, device_folders, discovery_url, folder_nodes, pki_dir_for, NodeSpec};
use factory_sim::strmap::StrMap;
use factory_sim::twin::PostgresConnector;
use factory_sim::wiring::build_wire_table_from_plant;

fn plc_row(id: u128, plc_id: Option<&str>, name: &str, kind: &str, port: Option<i32>) -> PlcRow {
    PlcRow {
        id,
        plc_id: plc_id.map(|s| s.to_string()),
        name: name.to_string(),
        kind: kind.to_string(),
        deploy_node: None,
        endpoint_uri: None,
        port,
        protocol: "opcua".to_string(),
        endpoint: "/".to_string(),
    }
}

fn inst(plc: u128, id: Option<&str>, ty: &str) -> InstRow {
    InstRow {
        plc_id: plc,
        device_id: id.map(|s| s.to_string()),
        name: id.unwrap_or("anon").to_string(),
        dt_name: ty.to_string(),
        params: vec![Param { name: "k".to_string(), value: 2.0f64.to_bits() }],
    }
}

fn wire(plc: u128, dst: &str, port: &str, src: &str, field: &str) -> PlcWireRow {
    PlcWireRow {
        dst_plc_id: plc,
        dst_device_id: Some(dst.to_string()),
        dst_input_port: port.to_string(),
        src_device_id: Some(src.to_string()),
        src_field: Some(field.to_string()),
    }
}

fn tdef(name: &str) -> DeviceTypeDefinition {
    DeviceTypeDefinition {
        device_type: name.to_string(),
        physics_mode: PhysicsMode::Simulation,
        physics_definition: None,
        functions: vec![],
        metrics: vec![],
        required_params: vec![],
    }
}

#[test]
fn plant_from_database_rows() {
    let plcs = vec![plc_row(1, None, "Heating Room", "simulated", None), plc_row(2, Some("plc-2"), "Other", "real", Some(70000))];
    let insts = vec![inst(1, Some("b1"), "boiler"), inst(1, None, "boiler"), inst(2, Some("v1"), "valve"), inst(1, Some("b2"), "boiler")];
    let wires = vec![wire(1, "b2", "in", "b1", "temp"), wire(2, "b2", "in", "x", "y")];
    let (plant, types) = assemble_plant(&plcs, &insts, &wires, &vec![tdef("boiler")]);
    assert_eq!(plant.plant_id, "db");
    assert_eq!(plant.name, "Plant");
    assert_eq!(plant.plcs.len(), 2);
    assert_eq!(plant.plcs[0].plc_id, "heating-room");
    assert!(plant.plcs[0].simulated);
    assert_eq!(plant.plcs[0].port, 4840);
    assert_eq!(plant.plcs[1].port, 70000i32 as u16);
    assert!(!plant.plcs[1].simulated);
    assert_eq!(plant.plcs[0].devices.len(), 2);
    assert_eq!(plant.plcs[0].devices[1].device_id, "b2");
    assert_eq!(plant.plcs[0].devices[1].input_variables.len(), 1);
    assert_eq!(plant.plcs[0].devices[1].input_variables[0].source_field, "temp");
    assert_eq!(plant.plcs[1].devices[0].device_id, "v1");
    assert_eq!(types.len(), 1);
    let table = build_wire_table_from_plant(&plant);
    assert_eq!(table.len(), 1);
    assert_eq!(table[0].dst_node_id, "ns=2;s=Heating Room.b2.in");
    assert_eq!(table[0].dst_plc_name, "Heating Room");
}

#[test]
fn one_plc_from_database_rows() {
    let row = OnePlcRow {
        plc_id: Some("plc-7".to_string()),
        name: "Seven".to_string(),
        kind: "simulated".to_string(),
        deploy_node: Some("pi".to_string()),
        endpoint_uri: None,
        port: Some(4841),
        protocol: "opcua".to_string(),
        endpoint: "/".to_string(),
    };
    let insts = vec![
        PlcInstRow { device_id: Some("a".to_string()), name: "A".to_string(), dt_name: "pump".to_string(), params: vec![], io_spec: Some(tdef("pump")) },
        PlcInstRow { device_id: None, name: "N".to_string(), dt_name: "tank".to_string(), params: vec![], io_spec: Some(tdef("tank")) },
        PlcInstRow { device_id: Some("b".to_string()), name: "B".to_string(), dt_name: "pump".to_string(), params: vec![], io_spec: Some(tdef("pump")) },
        PlcInstRow { device_id: Some("c".to_string()), name: "C".to_string(), dt_name: "tank".to_string(), params: vec![], io_spec: None },
    ];
    let wires = vec![OnePlcWireRow {
        dst_device_id: Some("b".to_string()),
        dst_input_port: "in".to_string(),
        src_device_id: Some("a".to_string()),
        src_field: Some("flow".to_string()),
    }];
    let (plc, types) = assemble_plc(&row, &insts, &wires);
    assert_eq!(plc.plc_id, "plc-7");
    assert_eq!(plc.port, 4841);
    assert_eq!(plc.devices.len(), 3);
    assert_eq!(plc.devices[1].input_variables.len(), 1);
    assert_eq!(types.len(), 1);
    assert_eq!(types[0].device_type, "pump");
}

fn resolved() -> ResolvedPlant {
    let plcs = vec![plc_row(1, Some("plc-1"), "One", "simulated", None), plc_row(2, Some("plc-2"), "Two", "real", None)];
    let insts = vec![inst(1, Some("a"), "pump"), inst(1, Some("b"), "tank"), inst(2, Some("c"), "pump")];
    let (plant, types) = assemble_plant(&plcs, &insts, &vec![], &vec![tdef("pump"), tdef("tank")]);
    ResolvedPlant::build(plant, types).ok().unwrap()
}

#[test]
fn sim_config_for_simulated_plc() {
    let plant = resolved();
    let plc = match sim_config_target(&plant, "plc-1") {
        SimConfigTarget::Found(p) => p,
        _ => panic!("expected the PLC"),
    };
    let cfg = sim_config_result(&plant, Some(plc), "plc-1").ok().unwrap();
    assert_eq!(cfg.plc.name, "One");
    let names: Vec<&str> = cfg.device_types.iter().map(|t| t.device_type.as_str()).collect();
    assert_eq!(names, vec!["pump", "tank"]);
}

#[test]
fn sim_config_errors() {
    let plant = resolved();
    assert!(matches!(sim_config_target(&plant, "nope"), SimConfigTarget::NotFound));
    match sim_config_target(&plant, "a1a2a3a4-b1b2-c1c2-d1d2-d3d4d5d6d7d8") {
        SimConfigTarget::LookUpName(u) => assert_eq!(u, 0xa1a2a3a4b1b2c1c2d1d2d3d4d5d6d7d8),
        _ => panic!("expected a UUID lookup"),
    }
    let two = plc_by_name(&plant, "Two").unwrap();
    let err = sim_config_result(&plant, Some(two), "x").err().unwrap();
    assert_eq!(err.status, 400);
    assert_eq!(err.message, "config endpoint is only for simulated PLCs");
    let err = sim_config_result(&plant, None, "plc-9").err().unwrap();
    assert_eq!(err.status, 404);
    assert_eq!(err.message, "PLC 'plc-9' not found");
}

#[test]
fn setpoints_and_deletes() {
    assert!(matches!(setpoint_value(&JsonScalar::Text("Float".to_string())), Some(DataType::Str(s)) if s == "Float"));
    assert!(matches!(setpoint_value(&JsonScalar::Number(3)), Some(DataType::Float(3))));
    assert!(setpoint_value(&JsonScalar::Other).is_none());
    let handles = vec!["P".to_string()];
    let cmd = setpoint_write(&handles, "P", "ns=2;s=P.d.m".to_string(), DataType::Boolean(true)).ok().unwrap();
    assert_eq!(cmd.node_id, "ns=2;s=P.d.m");
    let err = setpoint_write(&handles, "Q", "n".to_string(), DataType::Boolean(true)).err().unwrap();
    assert_eq!(err.status, 404);
    assert_eq!(err.message, "no connector for PLC 'Q'");
    assert_eq!(delete_status(1).ok(), Some(204));
    assert_eq!(delete_status(0).err().unwrap().message, "not found");
}

#[test]
fn json_values_read_as_data_types() {
    assert!(matches!(data_type_from_json(&JsonScalar::Text("Float".to_string())), Some(DataType::Float(0))));
    assert!(matches!(data_type_from_json(&JsonScalar::Text("Str".to_string())), Some(DataType::Str(s)) if s.is_empty()));
    assert!(matches!(data_type_from_json(&JsonScalar::Text("Boolean".to_string())), Some(DataType::Boolean(false))));
    assert!(matches!(data_type_from_json(&JsonScalar::Text("open".to_string())), Some(DataType::Str(s)) if s == "open"));
    assert!(matches!(data_type_from_json(&JsonScalar::Bool(true)), Some(DataType::Boolean(true))));
    assert!(data_type_from_json(&JsonScalar::Other).is_none());
}

#[test]
fn script_output_writes_only_known_fields_of_same_kind() {
    let mut state: StrMap<DataType> = StrMap::new();
    state.insert("t".to_string(), DataType::Float(1));
    state.insert("on".to_string(), DataType::Boolean(false));
    let out = vec![
        ("t".to_string(), ScriptValue::Float(2)),
        ("on".to_string(), ScriptValue::Str("yes".to_string())),
        ("new".to_string(), ScriptValue::Bool(true)),
    ];
    apply_script_output(&mut state, &out);
    assert!(matches!(state.get("t"), Some(DataType::Float(2))));
    assert!(matches!(state.get("on"), Some(DataType::Boolean(false))));
    assert!(state.get("new").is_none());
    assert_eq!(state.len(), 2);
}

#[test]
fn server_layout_and_updates() {
    let specs = vec![
        NodeSpec { device_id: "d1".to_string(), metric_name: "a".to_string(), node_path: "P.d1.a".to_string(), initial_value: DataType::Float(0) },
        NodeSpec { device_id: "d2".to_string(), metric_name: "a".to_string(), node_path: "P.d2.a".to_string(), initial_value: DataType::Float(0) },
        NodeSpec { device_id: "d1".to_string(), metric_name: "b".to_string(), node_path: "P.d1.b".to_string(), initial_value: DataType::Float(0) },
    ];
    assert_eq!(device_folders(&specs), vec!["d1".to_string(), "d2".to_string()]);
    assert_eq!(folder_nodes(&specs, "d1").len(), 2);
    let mut state: StrMap<StrMap<DataType>> = StrMap::new();
    let mut f: StrMap<DataType> = StrMap::new();
    f.insert("b".to_string(), DataType::Boolean(true));
    state.insert("d1".to_string(), f);
    let ups = collect_node_updates(&specs, &state);
    assert_eq!(ups.len(), 1);
    assert_eq!(ups[0].0, "P.d1.b");
    assert_eq!(pki_dir_for("Heating PLC"), "./pki-heating-plc");
    assert_eq!(discovery_url(4840), "opc.tcp://0.0.0.0:4840");
}

#[test]
fn records() {
    assert_eq!(PlcKind::Simulated.label(), "simulated");
    assert_eq!(PlcKind::from_label("real"), Some(PlcKind::Real));
    assert_eq!(PlcKind::from_label("Real"), None);
    let t = Topology { execution_order: vec!["b".to_string(), "a".to_string()] };
    assert_eq!(t.compute_execution_order().unwrap(), vec!["b".to_string(), "a".to_string()]);
    let c = PostgresConnector::new("postgres://x".to_string(), vec!["d".to_string()]);
    assert_eq!(c.device_ids.len(), 1);
}
