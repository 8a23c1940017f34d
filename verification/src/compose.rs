//! The docker-compose file for one deployment device: the simulated PLCs
//! deployed to it, and the backend and frontend when the platform file
//! assigns them to it.
use vstd::prelude::*;
use crate::data::{opt_view, views};
use crate::schema::{PlcConfig, PlcConfigView};
use crate::text::{decimal, same_text, u64_text};

verus! {

// ============================================================================
// Platform and inventory files
// ============================================================================

/// What `platform.json` says of a component: `None` when the text is not
/// JSON; otherwise `components.{component}.deploy_target` when that is a
/// string, or `Some(None)` when it is missing or not a string.
pub uninterp spec fn platform_target(json: Seq<char>, component: Seq<char>) -> Option<Option<Seq<char>>>;

/// Parses the platform file with `serde_json::from_str` and reads
/// `components.{component}.deploy_target` by indexing (a missing key reads as
/// `null`) and `Value::as_str`; the result is the named `platform_target`.
#[verifier::external_body]
fn component_deploy_target(platform_json: &str, component: &str) -> (r: Option<Option<String>>)
    ensures
        match r {
            None => platform_target(platform_json@, component@) is None,
            Some(t) => platform_target(platform_json@, component@) == Some(opt_view(t)),
        },
{
    match serde_json::from_str::<serde_json::Value>(platform_json) {
        Err(_) => None,
        Ok(v) => Some(v["components"][component]["deploy_target"].as_str().map(|s| s.to_string())),
    }
}

/// What `inventory.json` says of a device: `None` when the text is not JSON;
/// otherwise `devices.{device}.architecture` when that is a string, or
/// `Some(None)` when it is missing or not a string.
pub uninterp spec fn inventory_arch(json: Seq<char>, device: Seq<char>) -> Option<Option<Seq<char>>>;

/// Parses the inventory file with `serde_json::from_str` and reads
/// `devices.{device}.architecture` by indexing and `Value::as_str`; the
/// result is the named `inventory_arch`.
#[verifier::external_body]
fn inventory_architecture(inventory_json: &str, device: &str) -> (r: Option<Option<String>>)
    ensures
        match r {
            None => inventory_arch(inventory_json@, device@) is None,
            Some(t) => inventory_arch(inventory_json@, device@) == Some(opt_view(t)),
        },
{
    match serde_json::from_str::<serde_json::Value>(inventory_json) {
        Err(_) => None,
        Ok(v) => Some(v["devices"][device]["architecture"].as_str().map(|s| s.to_string())),
    }
}

/// The architecture of a device: the inventory's entry, `amd64` when it has
/// none; `None` when the inventory is not JSON.
pub open spec fn device_arch(inventory: Option<Option<Seq<char>>>) -> Option<Seq<char>> {
    match inventory {
        None => None,
        Some(Some(a)) => Some(a),
        Some(None) => Some("amd64"@),
    }
}

/// The architecture the inventory gives a device (see `device_arch`).
pub fn device_architecture(inventory_json: &str, device: &str) -> (r: Option<String>)
    ensures
        opt_view(r) == device_arch(inventory_arch(inventory_json@, device@)),
{
    match inventory_architecture(inventory_json, device) {
        None => None,
        Some(Some(a)) => Some(a),
        Some(None) => Some("amd64".to_string()),
    }
}

/// A component runs on the device when the platform file names the device as
/// its deploy target.
pub open spec fn runs_on(target: Option<Option<Seq<char>>>, device: Seq<char>) -> bool {
    target == Some(Some(device))
}

// ============================================================================
// The compose text
// ============================================================================

/// The simulated PLCs deployed to the device, in plant order.
pub open spec fn device_plcs(plcs: Seq<PlcConfigView>, device: Seq<char>) -> Seq<PlcConfigView> {
    plcs.filter(|p: PlcConfigView| p.simulated && p.deploy_target == Some(device))
}

/// The file's header, up to `services:`.
pub open spec fn compose_head(device: Seq<char>) -> Seq<char> {
    "# Device-specific compose for: "@ + device + "\n# Auto-generated — do not edit by hand\n\nservices:\n"@
}

/// `acc` followed by the simulator service of a PLC.
pub open spec fn add_plc_service(acc: Seq<char>, registry: Seq<char>, p: PlcConfigView) -> Seq<char> {
    acc + "  "@ + p.plc_id
        + ":\n    build:\n      context: .\n      dockerfile: simulator/Dockerfile\n    image: "@ + registry
        + "/simulator:latest\n    environment:\n      PLANT_CONFIG: /config\n      SIM_PLC_ID: "@ + p.plc_id
        + "\n      SIM_TICK_MS: 100\n      OPCUA_HOST: "@ + p.plc_id
        + "\n      PKI_DIR: /data/pki\n    volumes:\n      - ./config:/config:ro\n      - "@ + p.plc_id
        + "_data:/data\n    ports:\n      - \""@ + decimal(p.port as nat) + ":"@ + decimal(p.port as nat)
        + "\"\n    restart: unless-stopped\n\n"@
}

/// `acc` followed by the simulator services of the PLCs, in order.
pub open spec fn add_plc_services(acc: Seq<char>, registry: Seq<char>, plcs: Seq<PlcConfigView>) -> Seq<char>
    decreases plcs.len(),
{
    if plcs.len() == 0 {
        acc
    } else {
        add_plc_service(add_plc_services(acc, registry, plcs.drop_last()), registry, plcs.last())
    }
}

/// `acc` followed by the backend service.
pub open spec fn add_backend(acc: Seq<char>, registry: Seq<char>) -> Seq<char> {
    acc + "  backend:\n    build:\n      context: .\n      dockerfile: backend/Dockerfile\n    image: "@ + registry
        + "/backend:latest\n    environment:\n      PLANT_CONFIG: /config\n      BE_HOST: 0.0.0.0\n      BE_PORT: 3001\n      BE_TICK_MS: 100\n      PKI_DIR: /data/pki\n    volumes:\n      - ./config:/config:ro\n      - backend_data:/data\n    ports:\n      - \"3001:3001\"\n    healthcheck:\n      test: [\"CMD-SHELL\", \"wget -qO- http://localhost:3001/health || exit 1\"]\n      interval: 10s\n      timeout: 5s\n      retries: 5\n    restart: unless-stopped\n\n"@
}

/// `acc` followed by the frontend service, which depends on the backend
/// when the backend runs on the same device.
pub open spec fn add_frontend(acc: Seq<char>, registry: Seq<char>, with_backend: bool) -> Seq<char> {
    let s = acc + "  frontend:\n    build:\n      context: frontend\n      dockerfile: Dockerfile\n    image: "@ + registry
        + "/frontend:latest\n    environment:\n      BE_URL: ${BE_URL:-http://localhost:3001}\n    ports:\n      - \"8080:80\"\n"@;
    let s = if with_backend { s + "    depends_on:\n      - backend\n"@ } else { s };
    s + "    restart: unless-stopped\n\n"@
}

/// `acc` followed by the data volume of each PLC, in order.
pub open spec fn add_plc_volumes(acc: Seq<char>, plcs: Seq<PlcConfigView>) -> Seq<char>
    decreases plcs.len(),
{
    if plcs.len() == 0 {
        acc
    } else {
        add_plc_volumes(acc, plcs.drop_last()) + "  "@ + plcs.last().plc_id + "_data:\n"@
    }
}

/// The compose file for a device: the header, a service per simulated PLC
/// deployed there, the backend and the frontend when they run there, and the
/// named volumes when any service has one.
pub open spec fn compose_text(plcs: Seq<PlcConfigView>, device: Seq<char>, registry: Seq<char>, backend: bool, frontend: bool) -> Seq<char> {
    let dp = device_plcs(plcs, device);
    let s = add_plc_services(compose_head(device), registry, dp);
    let s = if backend { add_backend(s, registry) } else { s };
    let s = if frontend { add_frontend(s, registry, backend) } else { s };
    if dp.len() > 0 || backend {
        let v = add_plc_volumes(s + "volumes:\n"@, dp);
        if backend { v + "  backend_data:\n"@ } else { v }
    } else {
        s
    }
}

/// Whether a PLC is a simulated one deployed to the device.
fn deployed_to(p: &PlcConfig, device: &str) -> (r: bool)
    ensures
        r == (p@.simulated && p@.deploy_target == Some(device@)),
{
    if !p.simulated {
        return false;
    }
    match &p.deploy_target {
        Some(t) => same_text(t.as_str(), device),
        None => false,
    }
}

/// Append the simulator service of a PLC.
fn push_plc_service(out: &mut String, registry: &str, p: &PlcConfig)
    ensures
        final(out)@ == add_plc_service(old(out)@, registry@, p@),
{
    let port = u64_text(p.port as u64);
    out.append("  ");
    out.append(p.plc_id.as_str());
    out.append(":\n    build:\n      context: .\n      dockerfile: simulator/Dockerfile\n    image: ");
    out.append(registry);
    out.append("/simulator:latest\n    environment:\n      PLANT_CONFIG: /config\n      SIM_PLC_ID: ");
    out.append(p.plc_id.as_str());
    out.append("\n      SIM_TICK_MS: 100\n      OPCUA_HOST: ");
    out.append(p.plc_id.as_str());
    out.append("\n      PKI_DIR: /data/pki\n    volumes:\n      - ./config:/config:ro\n      - ");
    out.append(p.plc_id.as_str());
    out.append("_data:/data\n    ports:\n      - \"");
    out.append(port.as_str());
    out.append(":");
    out.append(port.as_str());
    out.append("\"\n    restart: unless-stopped\n\n");
}

/// The compose file for `device` (see `compose_text`).
pub fn device_compose(plcs: &Vec<PlcConfig>, device: &str, registry: &str, run_backend: bool, run_frontend: bool) -> (r: String)
    ensures
        r@ == compose_text(views(plcs@), device@, registry@, run_backend, run_frontend),
{
    let ghost pv = views(plcs@);
    let ghost dp = device_plcs(pv, device@);
    let mut out = String::new();
    out.append("# Device-specific compose for: ");
    out.append(device);
    out.append("\n# Auto-generated — do not edit by hand\n\nservices:\n");
    assert(out@ =~= compose_head(device@));
    let ghost head = out@;
    let mut any_plc = false;
    let mut i: usize = 0;
    assert(pv.take(0) =~= Seq::<PlcConfigView>::empty());
    assert(device_plcs(pv.take(0), device@) =~= Seq::<PlcConfigView>::empty());
    while i < plcs.len()
        invariant
            pv == views(plcs@),
            i <= plcs.len(),
            out@ == add_plc_services(head, registry@, device_plcs(pv.take(i as int), device@)),
            any_plc == (device_plcs(pv.take(i as int), device@).len() > 0),
        decreases plcs.len() - i,
    {
        let p = &plcs[i];
        assert(pv[i as int] == p@);
        assert(pv.take(i + 1) =~= pv.take(i as int).push(p@));
        proof {
            pv.take(i as int).lemma_filter_push(p@, |p: PlcConfigView| p.simulated && p.deploy_target == Some(device@));
        }
        if deployed_to(p, device) {
            push_plc_service(&mut out, registry, p);
            any_plc = true;
            let ghost s = device_plcs(pv.take(i + 1), device@);
            assert(s.drop_last() =~= device_plcs(pv.take(i as int), device@));
        }
        i = i + 1;
    }
    assert(pv.take(plcs.len() as int) =~= pv);
    if run_backend {
        out.append("  backend:\n    build:\n      context: .\n      dockerfile: backend/Dockerfile\n    image: ");
        out.append(registry);
        out.append("/backend:latest\n    environment:\n      PLANT_CONFIG: /config\n      BE_HOST: 0.0.0.0\n      BE_PORT: 3001\n      BE_TICK_MS: 100\n      PKI_DIR: /data/pki\n    volumes:\n      - ./config:/config:ro\n      - backend_data:/data\n    ports:\n      - \"3001:3001\"\n    healthcheck:\n      test: [\"CMD-SHELL\", \"wget -qO- http://localhost:3001/health || exit 1\"]\n      interval: 10s\n      timeout: 5s\n      retries: 5\n    restart: unless-stopped\n\n");
    }
    if run_frontend {
        out.append("  frontend:\n    build:\n      context: frontend\n      dockerfile: Dockerfile\n    image: ");
        out.append(registry);
        out.append("/frontend:latest\n    environment:\n      BE_URL: ${BE_URL:-http://localhost:3001}\n    ports:\n      - \"8080:80\"\n");
        if run_backend {
            out.append("    depends_on:\n      - backend\n");
        }
        out.append("    restart: unless-stopped\n\n");
    }
    if any_plc || run_backend {
        out.append("volumes:\n");
        let ghost vhead = out@;
        let mut j: usize = 0;
        while j < plcs.len()
            invariant
                pv == views(plcs@),
                j <= plcs.len(),
                out@ == add_plc_volumes(vhead, device_plcs(pv.take(j as int), device@)),
            decreases plcs.len() - j,
        {
            let p = &plcs[j];
            assert(pv[j as int] == p@);
            assert(pv.take(j + 1) =~= pv.take(j as int).push(p@));
            proof {
                pv.take(j as int).lemma_filter_push(p@, |p: PlcConfigView| p.simulated && p.deploy_target == Some(device@));
            }
            if deployed_to(p, device) {
                out.append("  ");
                out.append(p.plc_id.as_str());
                out.append("_data:\n");
                let ghost s = device_plcs(pv.take(j + 1), device@);
                assert(s.drop_last() =~= device_plcs(pv.take(j as int), device@));
            }
            j = j + 1;
        }
        if run_backend {
            out.append("  backend_data:\n");
        }
    }
    out
}

/// The compose file for `device`, with the backend and frontend placed by
/// the platform file; `None` when the platform file is not JSON.
pub fn compose_for_device(plcs: &Vec<PlcConfig>, device: &str, registry: &str, platform_json: &str) -> (r: Option<String>)
    ensures
        match r {
            None => platform_target(platform_json@, "backend"@) is None || platform_target(platform_json@, "frontend"@) is None,
            Some(text) => platform_target(platform_json@, "backend"@) is Some && platform_target(platform_json@, "frontend"@) is Some
                && text@ == compose_text(views(plcs@), device@, registry@,
                    runs_on(platform_target(platform_json@, "backend"@), device@),
                    runs_on(platform_target(platform_json@, "frontend"@), device@)),
        },
{
    let backend = match component_deploy_target(platform_json, "backend") {
        None => return None,
        Some(t) => t,
    };
    let frontend = match component_deploy_target(platform_json, "frontend") {
        None => return None,
        Some(t) => t,
    };
    let run_backend = match &backend {
        Some(t) => same_text(t.as_str(), device),
        None => false,
    };
    let run_frontend = match &frontend {
        Some(t) => same_text(t.as_str(), device),
        None => false,
    };
    Some(device_compose(plcs, device, registry, run_backend, run_frontend))
}

/// The declaration of a PLC's data volume.
pub open spec fn volume_line(p: PlcConfigView) -> Seq<char> {
    "  "@ + p.plc_id + "_data:\n"@
}

/// The declarations of the PLCs' data volumes, first to last.
pub open spec fn volume_lines(plcs: Seq<PlcConfigView>) -> Seq<char>
    decreases plcs.len(),
{
    if plcs.len() == 0 { Seq::empty() } else { volume_line(plcs[0]) + volume_lines(plcs.drop_first()) }
}

/// One more PLC adds its declaration at the end.
proof fn lemma_volume_lines_push(plcs: Seq<PlcConfigView>, p: PlcConfigView)
    ensures
        volume_lines(plcs.push(p)) == volume_lines(plcs) + volume_line(p),
    decreases plcs.len(),
{
    if plcs.len() == 0 {
        assert(plcs.push(p).drop_first() =~= Seq::<PlcConfigView>::empty());
        assert(plcs.push(p)[0] == p);
        assert(volume_lines(plcs.push(p).drop_first()) == Seq::<char>::empty());
        assert(volume_lines(plcs.push(p)) == volume_line(p) + Seq::<char>::empty());
        assert(volume_lines(plcs.push(p)) =~= volume_line(p));
        assert(volume_lines(plcs) == Seq::<char>::empty());
        assert(volume_lines(plcs) + volume_line(p) =~= volume_line(p));
    } else {
        assert(plcs.push(p).drop_first() =~= plcs.drop_first().push(p));
        lemma_volume_lines_push(plcs.drop_first(), p);
        assert(plcs.push(p)[0] == plcs[0]);
        assert(volume_lines(plcs.push(p)) =~= volume_line(plcs[0]) + (volume_lines(plcs.drop_first()) + volume_line(p)));
    }
}

/// Appending the volumes of PLCs appends each one's declaration, in order.
proof fn lemma_add_plc_volumes(acc: Seq<char>, plcs: Seq<PlcConfigView>)
    ensures
        add_plc_volumes(acc, plcs) == acc + volume_lines(plcs),
    decreases plcs.len(),
{
    if plcs.len() == 0 {
        assert(acc + volume_lines(plcs) =~= acc);
    } else {
        let p = plcs.drop_last();
        lemma_add_plc_volumes(acc, p);
        assert(p.push(plcs.last()) =~= plcs);
        lemma_volume_lines_push(p, plcs.last());
        assert(add_plc_volumes(acc, plcs) =~= acc + volume_lines(plcs));
    }
}

/// Every volume a service of the compose file mounts is declared: when the
/// file has any PLC service or the backend, it ends with `volumes:`, then
/// one declaration per simulated PLC deployed to the device, in plant
/// order, then the backend's volume when the backend runs there; a file
/// with neither has no volumes section.
pub proof fn compose_declares_every_volume(plcs: Seq<PlcConfigView>, device: Seq<char>, registry: Seq<char>, backend: bool, frontend: bool)
    ensures
        device_plcs(plcs, device).len() > 0 || backend ==> exists|head: Seq<char>|
            #[trigger] compose_text(plcs, device, registry, backend, frontend)
                == head + "volumes:\n"@ + volume_lines(device_plcs(plcs, device)) + (if backend { "  backend_data:\n"@ } else { Seq::<char>::empty() }),
{
    let dp = device_plcs(plcs, device);
    if dp.len() > 0 || backend {
        let s = add_plc_services(compose_head(device), registry, dp);
        let s = if backend { add_backend(s, registry) } else { s };
        let s = if frontend { add_frontend(s, registry, backend) } else { s };
        lemma_add_plc_volumes(s + "volumes:\n"@, dp);
        let tail = if backend { "  backend_data:\n"@ } else { Seq::<char>::empty() };
        assert(compose_text(plcs, device, registry, backend, frontend) =~= s + "volumes:\n"@ + volume_lines(dp) + tail);
    }
}

} // verus!
