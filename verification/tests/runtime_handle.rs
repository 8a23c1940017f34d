use factory_sim::data::{DataType, PhysicsMode};
use factory_sim::handle::{DeviceTypeRegistry, PlantConfigHandle, PlantRegistry};
use factory_sim::schema::{DeviceConfig, DeviceMetric, DeviceTypeDefinition, InputVariable, PlantConfig, PlcConfig};
use factory_sim::strmap::StrMap;
use factory_sim::tick::{prepare_device_tick, TickPlan};

fn metric(name: &str, data_type: DataType, initial: Option<DataType>) -> DeviceMetric {
    DeviceMetric { name: name.to_string(), description: String::new(), data_type, initial_value: initial }
}

fn ty(name: &str, mode: PhysicsMode, metrics: Vec<DeviceMetric>) -> DeviceTypeDefinition {
    DeviceTypeDefinition {
        device_type: name.to_string(),
        physics_mode: mode,
        physics_definition: None,
        functions: vec![],
        metrics,
        required_params: vec![],
    }
}

fn dev(id: &str, t: &str, inputs: Vec<(&str, &str, &str)>) -> DeviceConfig {
    DeviceConfig {
        device_id: id.to_string(),
        name: id.to_string(),
        device_type: t.to_string(),
        input_variables: inputs
            .into_iter()
            .map(|(n, s, f)| InputVariable { name: n.to_string(), source_device_id: s.to_string(), source_field: f.to_string() })
            .collect(),
        tick_ms: None,
        params: vec![],
    }
}

fn plant(devices: Vec<DeviceConfig>) -> PlantConfig {
    PlantConfig {
        plant_id: "p".to_string(),
        name: "Water".to_string(),
        description: String::new(),
        plcs: vec![PlcConfig {
            plc_id: "plc-001".to_string(),
            name: "Main".to_string(),
            simulated: true,
            protocol: "opcua".to_string(),
            uri: None,
            port: 4840,
            endpoint: "/".to_string(),
            deploy_target: None,
            devices,
        }],
    }
}

fn types() -> Vec<DeviceTypeDefinition> {
    vec![
        ty("tank", PhysicsMode::Simulation, vec![
            metric("level", DataType::Float(0), Some(DataType::Float(3.5f64.to_bits()))),
            metric("label", DataType::Str(String::new()), None),
            metric("alarm", DataType::Boolean(true), None),
            metric("inflow", DataType::Float(0), None),
        ]),
        ty("sensor", PhysicsMode::Live, vec![metric("reading", DataType::Float(0), None)]),
    ]
}

fn handle(devices: Vec<DeviceConfig>) -> PlantConfigHandle {
    PlantConfigHandle::new(
        DeviceTypeRegistry { types: types() },
        PlantRegistry { config: plant(devices), default_tick_ms: 250 },
    )
    .ok()
    .unwrap()
}

#[test]
fn new_seeds_live_state_from_metrics() {
    let h = handle(vec![dev("t1", "tank", vec![])]);
    assert!(matches!(h.get_field("t1", "level"), Some(DataType::Float(b)) if *b == 3.5f64.to_bits()));
    assert!(matches!(h.get_field("t1", "label"), Some(DataType::Str(s)) if s.is_empty()));
    assert!(matches!(h.get_field("t1", "alarm"), Some(DataType::Boolean(false))));
    assert!(h.get_field("t1", "nothing").is_none());
    assert!(h.get_field("t2", "level").is_none());
    assert_eq!(h.default_tick_ms(), 250);
    assert_eq!(h.plant_name(), "Water");
}

#[test]
fn new_rejects_unknown_type_but_not_unknown_inputs() {
    let err = PlantConfigHandle::new(
        DeviceTypeRegistry { types: types() },
        PlantRegistry { config: plant(vec![dev("x", "pump", vec![])]), default_tick_ms: 100 },
    )
    .err()
    .unwrap();
    assert_eq!(err.message(), "Device 'x' references unknown type 'pump'");
    let h = handle(vec![dev("t1", "tank", vec![("inflow", "ghost", "reading")])]);
    assert_eq!(h.resolved_devices().len(), 1);
}

#[test]
fn set_field_then_get_field_reads_back() {
    let mut h = handle(vec![dev("t1", "tank", vec![])]);
    h.set_field("t1", "level", DataType::Float(7.0f64.to_bits()));
    assert!(matches!(h.get_field("t1", "level"), Some(DataType::Float(b)) if *b == 7.0f64.to_bits()));
    assert!(matches!(h.get_field("t1", "alarm"), Some(DataType::Boolean(false))));
    h.set_field("nobody", "level", DataType::Boolean(true));
    assert!(h.get_device_state("nobody").is_none());
}

#[test]
fn set_device_state_replaces_fields() {
    let mut h = handle(vec![dev("t1", "tank", vec![])]);
    let mut fields: StrMap<DataType> = StrMap::new();
    fields.insert("only".to_string(), DataType::Boolean(true));
    h.set_device_state("t1", fields);
    assert!(h.get_field("t1", "level").is_none());
    assert!(matches!(h.get_field("t1", "only"), Some(DataType::Boolean(true))));
    assert_eq!(h.state_snapshot().len(), 1);
}

#[test]
fn lookups_find_first_match() {
    let h = handle(vec![dev("t1", "tank", vec![])]);
    assert_eq!(h.get_plc_by_id("plc-001").unwrap().name, "Main");
    assert!(h.get_plc_by_id("plc-002").is_none());
    assert_eq!(h.get_plc_by_name("Main").unwrap().plc_id, "plc-001");
    assert_eq!(h.get_type_def("sensor").unwrap().metrics.len(), 1);
    assert!(h.get_type_def("pump").is_none());
    assert_eq!(h.get_resolved("t1").unwrap().type_def.device_type, "tank");
    assert_eq!(h.all_plcs().len(), 1);
    assert_eq!(h.endpoint_configs()[0].node_reads.len(), 4);
}

#[test]
fn tick_plan_orders_sources_first() {
    let h = handle(vec![
        dev("b", "tank", vec![("inflow", "a", "level")]),
        dev("c", "tank", vec![("inflow", "b", "level")]),
        dev("a", "tank", vec![]),
    ]);
    let plan = TickPlan::build(&h).ok().unwrap();
    assert_eq!(plan.order(), &vec!["a".to_string(), "b".to_string(), "c".to_string()]);
}

#[test]
fn tick_plan_reports_cycles() {
    let h = handle(vec![
        dev("a", "tank", vec![("inflow", "b", "level")]),
        dev("b", "tank", vec![("inflow", "a", "level")]),
        dev("c", "tank", vec![]),
    ]);
    let err = TickPlan::build(&h).err().unwrap();
    assert_eq!(err, "Wiring cycle detected \u{2014} only 1 of 3 devices could be ordered");
}

#[test]
fn tick_plan_reports_unknown_sources_and_duplicates() {
    let h = handle(vec![dev("a", "tank", vec![("inflow", "ghost", "level")])]);
    assert_eq!(TickPlan::build(&h).err().unwrap(), "Wiring cycle detected \u{2014} only 0 of 1 devices could be ordered");
    let h = handle(vec![dev("a", "tank", vec![]), dev("a", "tank", vec![])]);
    assert_eq!(TickPlan::build(&h).err().unwrap(), "Wiring cycle detected \u{2014} only 1 of 2 devices could be ordered");
}

#[test]
fn device_tick_copies_inputs_then_hands_out_physics() {
    let mut h = handle(vec![
        dev("a", "tank", vec![]),
        dev("b", "tank", vec![("inflow", "a", "level"), ("label", "a", "missing")]),
        dev("s", "sensor", vec![]),
    ]);
    let job = prepare_device_tick(&mut h, "b").unwrap();
    assert!(matches!(h.get_field("b", "inflow"), Some(DataType::Float(x)) if *x == 3.5f64.to_bits()));
    assert!(matches!(h.get_field("b", "label"), Some(DataType::Str(s)) if s.is_empty()));
    assert_eq!(job.device_type, "tank");
    assert!(matches!(job.fields.get("inflow"), Some(DataType::Float(x)) if *x == 3.5f64.to_bits()));
    assert!(prepare_device_tick(&mut h, "s").is_none());
    assert!(prepare_device_tick(&mut h, "zzz").is_none());
}

#[test]
fn device_tick_leaves_other_devices_alone() {
    let mut h = handle(vec![dev("a", "tank", vec![]), dev("b", "tank", vec![("inflow", "a", "level")])]);
    h.set_field("a", "inflow", DataType::Float(9));
    let _ = prepare_device_tick(&mut h, "b");
    assert!(matches!(h.get_field("a", "inflow"), Some(DataType::Float(9))));
    assert!(matches!(h.get_field("a", "level"), Some(DataType::Float(x)) if *x == 3.5f64.to_bits()));
}

#[test]
fn server_nodes_are_the_nodes_the_connector_reads() {
    let h = handle(vec![dev("a", "tank", vec![]), dev("s", "sensor", vec![])]);
    let plc = h.get_plc_by_id("plc-001").unwrap().clone();
    let specs = factory_sim::server::collect_node_specs(&h, &plc);
    let reads = &h.endpoint_configs()[0].node_reads;
    assert_eq!(specs.len(), reads.len());
    for (s, r) in specs.iter().zip(reads.iter()) {
        assert_eq!(format!("ns=2;s={}", s.node_path), r.node_id);
        assert_eq!(s.device_id, r.device_id);
        assert_eq!(s.metric_name, r.metric_name);
    }
    assert_eq!(specs[0].node_path, "Main.a.level");
}

#[test]
fn effective_tick_ms_prefers_the_device_interval() {
    let mut d = dev("t1", "tank", vec![]);
    d.tick_ms = Some(40);
    let h = handle(vec![d, dev("t2", "tank", vec![])]);
    assert_eq!(h.get_resolved("t1").unwrap().effective_tick_ms(250), 40);
    assert_eq!(h.get_resolved("t2").unwrap().effective_tick_ms(250), 250);
}

#[test]
fn metrics_without_initial_value_start_from_their_kind_zero() {
    let h = handle(vec![dev("a", "tank", vec![])]);
    let reads = &h.endpoint_configs()[0].node_reads;
    assert!(matches!(reads[0].data_type, DataType::Float(b) if b == 3.5f64.to_bits()));
    assert!(matches!(&reads[1].data_type, DataType::Str(s) if s.is_empty()));
    assert!(matches!(reads[2].data_type, DataType::Boolean(false)));
    assert!(matches!(reads[3].data_type, DataType::Float(0)));
    let plc = h.get_plc_by_id("plc-001").unwrap().clone();
    let specs = factory_sim::server::collect_node_specs(&h, &plc);
    assert!(matches!(&specs[1].initial_value, DataType::Str(s) if s.is_empty()));
    assert!(matches!(specs[2].initial_value, DataType::Boolean(false)));
    for (s, r) in specs.iter().zip(reads.iter()) {
        assert!(matches!(h.get_field(&s.device_id, &s.metric_name), Some(v) if format!("{:?}", v) == format!("{:?}", r.data_type)));
    }
}
