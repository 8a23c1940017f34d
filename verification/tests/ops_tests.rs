use factory_sim::compose::{compose_for_device, device_architecture, device_compose};
use factory_sim::config::{AppConfig, AssetError, EnvVars, LocalStore};
use factory_sim::k8s::{
    deployment_names, desired_plcs, mem_in_range, node_entries, parse_mem_to_mb, reconcile_plan, sim_resources_yaml,
    volume_claim_name, SimPlcRow,
};
use factory_sim::naming::{plc_deploy_name, slugify};
use factory_sim::split::{lines, split_char, split_whitespace, trim};

fn env() -> EnvVars {
    EnvVars {
        be_host: None,
        be_port: None,
        be_tick_ms: None,
        database_url: None,
        seed_dir: None,
        plant_config: None,
        asset_dir: None,
        pki_dir: None,
        opcua_uri_override: None,
        simulator_image: None,
        backend_svc_url: None,
        k8s_namespace: None,
    }
}

#[test]
fn app_config_defaults() {
    let c = AppConfig::from_env(&env()).unwrap();
    assert_eq!(c.ws_host, "0.0.0.0");
    assert_eq!(c.ws_port, 3001);
    assert_eq!(c.tick_ms, 100);
    assert!(c.database_url.is_none());
    assert_eq!(c.plant_config_dir, "/config");
    assert_eq!(c.asset_dir, "/data/assets");
    assert_eq!(c.pki_dir, "./pki");
    assert_eq!(c.simulator_image, "factory-sim/simulator:latest");
    assert_eq!(c.backend_svc_url, "http://backend:3001");
    assert_eq!(c.k8s_namespace, "default");
}

#[test]
fn app_config_reads_variables() {
    let mut e = env();
    e.be_port = Some("8080".to_string());
    e.database_url = Some(String::new());
    e.opcua_uri_override = Some("opc.tcp://localhost".to_string());
    e.be_host = Some(String::new());
    let c = AppConfig::from_env(&e).unwrap();
    assert_eq!(c.ws_port, 8080);
    assert!(c.database_url.is_none());
    assert_eq!(c.opcua_uri_override.as_deref(), Some("opc.tcp://localhost"));
    assert_eq!(c.ws_host, "");
    assert_eq!(c.backend_svc_url, "http://backend:8080");
}

#[test]
fn app_config_rejects_bad_numbers() {
    let mut e = env();
    e.be_port = Some("70000".to_string());
    assert_eq!(AppConfig::from_env(&e).err().unwrap(), "BE_PORT must be a valid u16");
    let mut e = env();
    e.be_tick_ms = Some("-5".to_string());
    assert_eq!(AppConfig::from_env(&e).err().unwrap(), "BE_TICK_MS must be a valid u64");
}

#[test]
fn asset_keys_cannot_escape_root() {
    assert_eq!(LocalStore::safe_key("../../etc/passwd"), "__/__/etc/passwd");
    assert_eq!(LocalStore::safe_key("a/.../b"), "a/__./b");
    assert_eq!(LocalStore::safe_key("/etc/passwd"), "etc/passwd");
    assert_eq!(LocalStore::safe_key("//..x"), "__x");
    assert_eq!(LocalStore::safe_key("\\..x"), "\\__x");
    assert_eq!(LocalStore::safe_key("///"), "");
    let store = LocalStore::new("/data/assets".to_string());
    assert_eq!(store.path_for("models/../x.glb"), std::path::PathBuf::from("/data/assets/models/__/x.glb"));
    assert_eq!(store.path_for("/etc/passwd"), std::path::PathBuf::from("/data/assets/etc/passwd"));
    assert_eq!(AssetError::Io("disk full".to_string()).message(), "I/O error: disk full");
}

#[test]
fn slugs_and_deploy_names() {
    assert_eq!(slugify("Heating PLC #1"), "heating-plc-1");
    assert_eq!(slugify("  --Boiler__Room--  "), "boiler-room");
    assert_eq!(slugify(""), "");
    assert_eq!(plc_deploy_name("PLC_One"), "plc-one");
}

#[test]
fn memory_quantities() {
    assert_eq!(parse_mem_to_mb("8Gi"), Some(8192));
    assert_eq!(parse_mem_to_mb("2048Mi"), Some(2048));
    assert_eq!(parse_mem_to_mb("1048576Ki"), Some(1024));
    assert_eq!(parse_mem_to_mb("1073741824"), Some(1024));
    assert_eq!(parse_mem_to_mb("-2047Ki"), Some(-1));
    assert_eq!(parse_mem_to_mb("lots"), None);
    assert_eq!(parse_mem_to_mb("Mi"), None);
    assert!(mem_in_range("8Gi"));
    assert!(!mem_in_range("9223372036854775807Gi"));
}

#[test]
fn reconcile_creates_missing_and_deletes_stale() {
    let rows = vec![
        SimPlcRow { plc_id: Some("PLC_001".to_string()), name: "a".to_string(), deploy_node: Some("pi".to_string()) },
        SimPlcRow { plc_id: None, name: "Mixing Station".to_string(), deploy_node: None },
    ];
    let desired = desired_plcs(&rows);
    assert!(desired.contains_key("plc-001"));
    assert!(desired.contains_key("mixing-station"));
    let actual = vec!["plc-001".to_string(), "old-one".to_string()];
    let plan = reconcile_plan(&desired, &actual);
    assert_eq!(plan.create.len(), 1);
    assert_eq!(plan.create[0].deploy_name, "mixing-station");
    assert_eq!(plan.delete, vec!["old-one".to_string()]);
}

#[test]
fn manifest_names_the_simulator() {
    let rows = vec![SimPlcRow { plc_id: Some("plc-9".to_string()), name: "n".to_string(), deploy_node: Some("pi4".to_string()) }];
    let desired = desired_plcs(&rows);
    let d = desired.value_at(0);
    let yaml = sim_resources_yaml(d, "img:1", "http://backend:3001", "ns1");
    assert!(yaml.starts_with("---\napiVersion: apps/v1\nkind: Deployment\nmetadata:\n  name: plc-9\n  namespace: ns1\n"));
    assert!(yaml.contains("      nodeSelector:\n        deploy_target: pi4\n      containers:\n"));
    assert!(yaml.contains("          value: \"plc-9\"\n"));
    assert!(yaml.contains("claimName: plc-9-data\n"));
    assert!(yaml.ends_with("  - port: 4840\n    targetPort: 4840\n"));
    assert_eq!(volume_claim_name("plc-9"), "plc-9-data");
}

#[test]
fn kubectl_output_parsing() {
    assert_eq!(deployment_names(" plc-1  plc-2\n"), vec!["plc-1".to_string(), "plc-2".to_string()]);
    let out = "node-a\tpi\tarm64\t3906Mi\tTrue\nnode-b\t\tamd64\t1Gi\tTrue\nnode-c\tnuc\tamd64\t8Gi\tFalse\nbad line\n";
    let nodes = node_entries(out);
    assert_eq!(nodes.len(), 2);
    assert_eq!(nodes[0].deploy_target, "pi");
    assert_eq!(nodes[0].mem, "3906Mi");
    assert_eq!(nodes[0].status, "ready");
    assert_eq!(nodes[1].k8s_node, "node-c");
    assert_eq!(nodes[1].status, "notready");
}

#[test]
fn text_splitting() {
    assert_eq!(split_char("a//b", '/'), vec!["a".to_string(), String::new(), "b".to_string()]);
    assert_eq!(split_char("", '/'), vec![String::new()]);
    assert_eq!(lines("x\r\ny\n\nz"), vec!["x".to_string(), "y".to_string(), String::new(), "z".to_string()]);
    assert_eq!(lines(""), Vec::<String>::new());
    assert_eq!(split_whitespace("  a \t b\n"), vec!["a".to_string(), "b".to_string()]);
    assert_eq!(trim(" \t x y \n"), "x y");
    assert_eq!(trim("   "), "");
}

fn compose_plc(id: &str, simulated: bool, target: Option<&str>, port: u16) -> factory_sim::schema::PlcConfig {
    factory_sim::schema::PlcConfig {
        plc_id: id.to_string(),
        name: id.to_string(),
        simulated,
        protocol: "opcua".to_string(),
        uri: None,
        port,
        endpoint: "/".to_string(),
        deploy_target: target.map(|t| t.to_string()),
        devices: vec![],
    }
}

#[test]
fn compose_for_one_device() {
    let plcs = vec![
        compose_plc("plc-001", true, Some("pi"), 4840),
        compose_plc("plc-002", true, Some("nuc"), 4841),
        compose_plc("plc-003", false, Some("pi"), 4842),
    ];
    let text = device_compose(&plcs, "pi", "reg", false, false);
    let expected = "# Device-specific compose for: pi\n# Auto-generated — do not edit by hand\n\nservices:\n  plc-001:\n    build:\n      context: .\n      dockerfile: simulator/Dockerfile\n    image: reg/simulator:latest\n    environment:\n      PLANT_CONFIG: /config\n      SIM_PLC_ID: plc-001\n      SIM_TICK_MS: 100\n      OPCUA_HOST: plc-001\n      PKI_DIR: /data/pki\n    volumes:\n      - ./config:/config:ro\n      - plc-001_data:/data\n    ports:\n      - \"4840:4840\"\n    restart: unless-stopped\n\nvolumes:\n  plc-001_data:\n";
    assert_eq!(text, expected);

    let text = device_compose(&plcs, "web", "reg", true, true);
    assert!(text.contains("  backend:\n"));
    assert!(text.contains("    depends_on:\n      - backend\n"));
    assert!(text.ends_with("volumes:\n  backend_data:\n"));
    assert!(!text.contains("plc-00"));

    let text = device_compose(&plcs, "web", "reg", false, true);
    assert!(text.contains("  frontend:\n"));
    assert!(!text.contains("depends_on"));
    assert!(!text.contains("volumes:"));
}

#[test]
fn compose_reads_platform_and_inventory() {
    let plcs = vec![compose_plc("plc-001", true, Some("pi"), 4840)];
    let platform = r#"{"components": {"backend": {"deploy_target": "pi"}, "frontend": {"deploy_target": "nuc"}}}"#;
    let text = compose_for_device(&plcs, "pi", "reg", platform).unwrap();
    assert_eq!(text, device_compose(&plcs, "pi", "reg", true, false));
    let text = compose_for_device(&plcs, "nuc", "reg", platform).unwrap();
    assert_eq!(text, device_compose(&plcs, "nuc", "reg", false, true));
    assert_eq!(compose_for_device(&plcs, "pi", "reg", "{}").unwrap(), device_compose(&plcs, "pi", "reg", false, false));
    assert!(compose_for_device(&plcs, "pi", "reg", "not json").is_none());
    let inventory = r#"{"devices": {"pi": {"name": "Pi", "architecture": "arm64"}}}"#;
    assert_eq!(device_architecture(inventory, "pi").as_deref(), Some("arm64"));
    assert_eq!(device_architecture(inventory, "nuc").as_deref(), Some("amd64"));
    assert!(device_architecture("[", "pi").is_none());
}

#[test]
fn slugging_a_slug_gives_it_back() {
    for s in ["Heating PLC #1", "--Main__Line--", "ABC-def 42", "", "___", "a--b"] {
        let once = slugify(s);
        assert_eq!(slugify(&once), once);
    }
    assert_eq!(slugify("Heating PLC #1"), "heating-plc-1");
}
