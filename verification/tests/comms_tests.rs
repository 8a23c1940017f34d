use factory_sim::connector::{
    backoff_secs, connector_start, connector_step, merge_partial, ConnectorAction, ConnectorEvent, ConnectorState,
};
use factory_sim::data::DataType;
use factory_sim::endpoints::{
    apply_uri_override, bare_endpoint_of, has_connector, new_connector_endpoint, plcs_to_endpoints, rewrite_host,
};
use factory_sim::port_guard::pids_to_release;
use factory_sim::scada::{
    child_browse_path, collect_partial, node_data_type, path_to_device_metric, reads_from_browse, BrowsedVariable,
    BrowseWalk, BrowsedRef, NodeDataType, PolledNode, ScadaPlcConnector,
};
use factory_sim::schema::{NodeReadConfig, PlcConfig, PlcEndpointConfig};
use factory_sim::strmap::StrMap;
use factory_sim::wiring::{route_wires, wires_from_rows, OrchestratorWire, WireRow};

fn fields(pairs: Vec<(&str, DataType)>) -> StrMap<DataType> {
    let mut m = StrMap::new();
    for (k, v) in pairs {
        m.insert(k.to_string(), v);
    }
    m
}

#[test]
fn backoff_follows_the_table() {
    let secs: Vec<u64> = (0..9).map(backoff_secs).collect();
    assert_eq!(secs, vec![1, 2, 4, 8, 16, 30, 30, 30, 30]);
}

#[test]
fn connect_failures_back_off_then_poll() {
    let (mut s, a) = connector_start();
    assert_eq!(a, ConnectorAction::Connect { after_secs: 0 });
    let (s1, a1) = connector_step(s, ConnectorEvent::ConnectFailed);
    assert_eq!(s1, ConnectorState::Connecting { attempt: 1 });
    assert_eq!(a1, ConnectorAction::Connect { after_secs: 1 });
    s = s1;
    let (s2, a2) = connector_step(s, ConnectorEvent::ConnectFailed);
    assert_eq!(a2, ConnectorAction::Connect { after_secs: 2 });
    let (s3, a3) = connector_step(s2, ConnectorEvent::ConnectOk);
    assert_eq!(s3, ConnectorState::Polling { failures: 0 });
    assert_eq!(a3, ConnectorAction::Poll { after_secs: 0 });
}

#[test]
fn repeated_poll_failures_reconnect() {
    let mut s = ConnectorState::Polling { failures: 0 };
    let mut waits = Vec::new();
    for _ in 0..5 {
        let (n, a) = connector_step(s, ConnectorEvent::PollFailed);
        match a {
            ConnectorAction::Poll { after_secs } => waits.push(after_secs),
            ConnectorAction::Connect { .. } => panic!("reconnected too early"),
        }
        s = n;
    }
    assert_eq!(waits, vec![2, 4, 8, 16, 30]);
    let (n, a) = connector_step(s, ConnectorEvent::PollFailed);
    assert_eq!(n, ConnectorState::Connecting { attempt: 0 });
    assert_eq!(a, ConnectorAction::Connect { after_secs: 30 });
    let (n, _) = connector_step(ConnectorState::Polling { failures: 3 }, ConnectorEvent::PollOk);
    assert_eq!(n, ConnectorState::Polling { failures: 0 });
}

#[test]
fn merge_overwrites_polled_fields_only() {
    let mut ingested: StrMap<StrMap<DataType>> = StrMap::new();
    ingested.insert("a".to_string(), fields(vec![("x", DataType::Boolean(true)), ("y", DataType::Boolean(true))]));
    let mut partial: StrMap<StrMap<DataType>> = StrMap::new();
    partial.insert("a".to_string(), fields(vec![("y", DataType::Boolean(false))]));
    partial.insert("b".to_string(), fields(vec![("z", DataType::Str("s".to_string()))]));
    merge_partial(&mut ingested, &partial);
    let a = ingested.get("a").unwrap();
    assert!(matches!(a.get("x"), Some(DataType::Boolean(true))));
    assert!(matches!(a.get("y"), Some(DataType::Boolean(false))));
    assert!(matches!(ingested.get("b").unwrap().get("z"), Some(DataType::Str(s)) if s == "s"));
}

#[test]
fn rewrite_host_keeps_port_and_path() {
    assert_eq!(rewrite_host("opc.tcp://plc-001:4840/", "opc.tcp://localhost"), "opc.tcp://localhost:4840/");
    assert_eq!(rewrite_host("plc-001:4840/", "opc.tcp://localhost"), "plc-001:4840/");
    assert_eq!(rewrite_host("opc.tcp://plc-001/", "h"), "opc.tcp://plc-001/");
}

fn plc(name: &str, protocol: &str) -> PlcConfig {
    PlcConfig {
        plc_id: name.to_lowercase(),
        name: name.to_string(),
        simulated: false,
        protocol: protocol.to_string(),
        uri: Some("opc.tcp://real".to_string()),
        port: 4840,
        endpoint: "/x".to_string(),
        deploy_target: None,
        devices: vec![],
    }
}

#[test]
fn uri_override_applies_only_when_set() {
    let plcs = vec![plc("A", "opcua"), plc("B", "modbus")];
    let mut eps = plcs_to_endpoints(&plcs);
    assert_eq!(eps[0].url, "opc.tcp://real:4840/x");
    apply_uri_override(&mut eps, None);
    assert_eq!(eps[0].url, "opc.tcp://real:4840/x");
    apply_uri_override(&mut eps, Some(""));
    assert_eq!(eps[0].url, "opc.tcp://real:4840/x");
    apply_uri_override(&mut eps, Some("opc.tcp://127.0.0.1"));
    assert_eq!(eps[0].url, "opc.tcp://127.0.0.1:4840/x");
    assert_eq!(eps[1].url, "opc.tcp://127.0.0.1:4840/x");
    assert!(has_connector(&eps[0]));
    assert!(!has_connector(&eps[1]));
    assert_eq!(bare_endpoint_of(&plcs[1]).node_reads.len(), 0);
}

#[test]
fn browse_paths_name_device_and_metric() {
    let r = path_to_device_metric(&Some("HeatingPLC/boiler_001/temperature".to_string())).unwrap();
    assert_eq!(r, ("boiler_001".to_string(), "temperature".to_string()));
    let r = path_to_device_metric(&Some("Objects/HeatingPLC/boiler_001/temperature".to_string())).unwrap();
    assert_eq!(r.0, "boiler_001");
    assert!(path_to_device_metric(&Some("HeatingPLC/boiler_001".to_string())).is_none());
    assert!(path_to_device_metric(&None).is_none());
    assert_eq!(child_browse_path(&Some("A/B".to_string()), "c"), "A/B/c");
    assert_eq!(child_browse_path(&None, "c"), "c");
}

#[test]
fn node_types_decode_by_attribute() {
    assert_eq!(node_data_type(Some((0, Some(1)))), NodeDataType::Boolean);
    assert_eq!(node_data_type(Some((0, Some(12)))), NodeDataType::Str);
    assert_eq!(node_data_type(Some((0, Some(11)))), NodeDataType::Float);
    assert_eq!(node_data_type(Some((2, Some(1)))), NodeDataType::Float);
    assert_eq!(node_data_type(None), NodeDataType::Float);
}

#[test]
fn browse_results_become_reads() {
    let vars = vec![
        BrowsedVariable { browse_path: Some("P/d1/m1".to_string()), data_type: NodeDataType::Float },
        BrowsedVariable { browse_path: Some("P/d1".to_string()), data_type: NodeDataType::Str },
        BrowsedVariable { browse_path: Some("P/d2/m2".to_string()), data_type: NodeDataType::Boolean },
    ];
    let reads = reads_from_browse(&vars);
    assert_eq!(reads.len(), 2);
    assert_eq!(reads[1].device_id, "d2");
    assert_eq!(reads[1].index, 2);
    assert_eq!(reads[1].data_type, NodeDataType::Boolean);
}

#[test]
fn poll_results_group_by_device() {
    let reads = vec![
        PolledNode { device_id: "d1".to_string(), metric_name: "a".to_string() },
        PolledNode { device_id: "d1".to_string(), metric_name: "b".to_string() },
        PolledNode { device_id: "d2".to_string(), metric_name: "a".to_string() },
    ];
    let values = vec![Some(DataType::Boolean(true)), None, Some(DataType::Float(1))];
    let partial = collect_partial(&reads, &values);
    assert_eq!(partial.len(), 2);
    assert!(partial.get("d1").unwrap().get("b").is_none());
    assert!(matches!(partial.get("d2").unwrap().get("a"), Some(DataType::Float(1))));
}

#[test]
fn scada_connector_from_endpoint() {
    let ep = PlcEndpointConfig {
        name: "P".to_string(),
        protocol: "opcua".to_string(),
        url: "opc.tcp://p:4840/".to_string(),
        node_reads: vec![NodeReadConfig {
            device_id: "d".to_string(),
            metric_name: "m".to_string(),
            node_id: "ns=2;s=P.d.m".to_string(),
            data_type: DataType::Str(String::new()),
        }],
    };
    let (name, c) = ScadaPlcConnector::new(ep);
    assert_eq!(name, "P");
    assert_eq!(c.endpoint, "opc.tcp://p:4840/");
    assert_eq!(c.node_reads[0].data_type, NodeDataType::Str);
}

#[test]
fn wires_route_live_values_to_connected_plcs() {
    let rows = vec![
        WireRow {
            src_device_id: Some("a".to_string()),
            src_field: Some("x".to_string()),
            dst_plc_name: "P".to_string(),
            dst_device_id: Some("b".to_string()),
            dst_input_port: "in".to_string(),
        },
        WireRow {
            src_device_id: None,
            src_field: Some("x".to_string()),
            dst_plc_name: "P".to_string(),
            dst_device_id: Some("b".to_string()),
            dst_input_port: "in2".to_string(),
        },
        WireRow {
            src_device_id: Some("a".to_string()),
            src_field: Some("x".to_string()),
            dst_plc_name: "Q".to_string(),
            dst_device_id: Some("c".to_string()),
            dst_input_port: "in".to_string(),
        },
    ];
    let wires: Vec<OrchestratorWire> = wires_from_rows(&rows);
    assert_eq!(wires.len(), 2);
    assert_eq!(wires[0].dst_node_id, "ns=2;s=P.b.in");
    let mut ingested: StrMap<StrMap<DataType>> = StrMap::new();
    ingested.insert("a".to_string(), fields(vec![("x", DataType::Boolean(true))]));
    let handles = vec!["P".to_string()];
    let sends = route_wires(&wires, &ingested, &handles);
    assert_eq!(sends.len(), 1);
    assert_eq!(sends[0].0, "P");
    assert_eq!(sends[0].1.node_id, "ns=2;s=P.b.in");
    assert!(matches!(sends[0].1.value, DataType::Boolean(true)));
}

#[test]
fn new_plc_gets_a_connector_once() {
    let p = plc("New", "opcua");
    let running = vec!["Old".to_string()];
    let e = new_connector_endpoint(&p, &running, Some("opc.tcp://gw")).unwrap();
    assert_eq!(e.name, "New");
    assert_eq!(e.url, "opc.tcp://gw:4840/x");
    assert!(e.node_reads.is_empty());
    let running = vec!["New".to_string()];
    assert!(new_connector_endpoint(&p, &running, None).is_none());
}

#[test]
fn lsof_output_to_pids() {
    assert_eq!(pids_to_release("123\n456\nabc\n789\n", 456), vec![123, 789]);
    assert_eq!(pids_to_release("", 1), Vec::<u32>::new());
}

#[test]
fn browse_step_paths_and_descent() {
    let refs = vec![
        factory_sim::scada::BrowsedRef { node_id: "ns=2;s=P".to_string(), name: "P".to_string(), is_variable: false },
        factory_sim::scada::BrowsedRef { node_id: "ns=2;s=P.x".to_string(), name: "x".to_string(), is_variable: true },
    ];
    let (found, next) = factory_sim::scada::expand_node(&Some("Objects".to_string()), factory_sim::scada::BROWSE_DEPTH, &refs);
    assert_eq!(found.len(), 2);
    assert_eq!(found[1].browse_path.as_deref(), Some("Objects/x"));
    assert!(found[1].is_variable);
    assert_eq!(next.len(), 1);
    assert_eq!(next[0].node_id, "ns=2;s=P");
    assert_eq!(next[0].depth, 5);
    let (found, _) = factory_sim::scada::expand_node(&None, 1, &refs);
    assert_eq!(found[0].browse_path.as_deref(), Some("P"));
}

#[test]
fn browse_walk_is_breadth_first_and_depth_limited() {
    let folder = |id: &str| BrowsedRef { node_id: id.to_string(), name: id.to_string(), is_variable: false };
    let var = |id: &str| BrowsedRef { node_id: id.to_string(), name: id.to_string(), is_variable: true };
    let mut walk = BrowseWalk::start("i=85".to_string());
    let root = walk.next_browse().unwrap();
    assert_eq!(root.node_id, "i=85");
    assert!(root.path.is_none());
    assert_eq!(root.depth, 6);
    walk.record(&root, &vec![folder("Heat"), folder("Cool")]);
    let heat = walk.next_browse().unwrap();
    assert_eq!(heat.path.as_deref(), Some("Heat"));
    walk.record(&heat, &vec![folder("b1"), var("alarm")]);
    let cool = walk.next_browse().unwrap();
    assert_eq!(cool.node_id, "Cool");
    walk.record(&cool, &vec![]);
    let b1 = walk.next_browse().unwrap();
    assert_eq!(b1.path.as_deref(), Some("Heat/b1"));
    assert_eq!(b1.depth, 4);
    walk.record(&b1, &vec![var("temperature")]);
    assert!(walk.next_browse().is_none());
    let found = walk.into_found();
    let paths: Vec<&str> = found.iter().map(|n| n.browse_path.as_deref().unwrap()).collect();
    assert_eq!(paths, vec!["Heat", "Cool", "Heat/b1", "Heat/alarm", "Heat/b1/temperature"]);

    // A chain of folders is browsed six levels deep and no deeper.
    let mut walk = BrowseWalk::start("root".to_string());
    let mut browsed = 0;
    while let Some(at) = walk.next_browse() {
        browsed += 1;
        walk.record(&at, &vec![folder(&format!("f{}", browsed))]);
    }
    assert_eq!(browsed, 6);
    assert_eq!(walk.into_found().len(), 6);
}
