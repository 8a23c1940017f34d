//! Runtime configuration of the backend, read from environment variables,
//! and the local asset store's key handling.
use vstd::prelude::*;
use crate::data::opt_view;
use crate::text::{chars_of, concat2, decimal, owned, parse_in_range, parse_u16, parse_u64, u64_text};

verus! {

// ============================================================================
// AppConfig
// ============================================================================

/// The backend's environment: the value of each variable it reads, `None`
/// when the variable is unset.
#[derive(Clone, Debug)]
pub struct EnvVars {
    pub be_host: Option<String>,
    pub be_port: Option<String>,
    pub be_tick_ms: Option<String>,
    pub database_url: Option<String>,
    pub seed_dir: Option<String>,
    pub plant_config: Option<String>,
    pub asset_dir: Option<String>,
    pub pki_dir: Option<String>,
    pub opcua_uri_override: Option<String>,
    pub simulator_image: Option<String>,
    pub backend_svc_url: Option<String>,
    pub k8s_namespace: Option<String>,
}

/// Central runtime configuration of the backend.
///
/// | Env var              | Field                | Default                        |
/// |----------------------|----------------------|--------------------------------|
/// | `BE_HOST`            | `ws_host`            | `0.0.0.0`                      |
/// | `BE_PORT`            | `ws_port`            | `3001`                         |
/// | `BE_TICK_MS`         | `tick_ms`            | `100`                          |
/// | `DATABASE_URL`       | `database_url`       | unset → no persistence         |
/// | `SEED_DIR`           | `seed_dir`           | unset → no seeding             |
/// | `PLANT_CONFIG`       | `plant_config_dir`   | `/config`                      |
/// | `ASSET_DIR`          | `asset_dir`          | `/data/assets`                 |
/// | `PKI_DIR`            | `pki_dir`            | `./pki`                        |
/// | `OPCUA_URI_OVERRIDE` | `opcua_uri_override` | unset → use each PLC's URI     |
/// | `SIMULATOR_IMAGE`    | `simulator_image`    | `factory-sim/simulator:latest` |
/// | `BACKEND_SVC_URL`    | `backend_svc_url`    | `http://backend:{ws_port}`     |
/// | `K8S_NAMESPACE`      | `k8s_namespace`      | `default`                      |
#[derive(Clone, Debug)]
pub struct AppConfig {
    pub ws_host: String,
    pub ws_port: u16,
    pub tick_ms: u64,
    pub database_url: Option<String>,
    pub seed_dir: Option<String>,
    pub plant_config_dir: String,
    pub asset_dir: String,
    pub pki_dir: String,
    pub opcua_uri_override: Option<String>,
    pub simulator_image: String,
    pub backend_svc_url: String,
    pub k8s_namespace: String,
}

pub struct AppConfigView {
    pub ws_host: Seq<char>,
    pub ws_port: u16,
    pub tick_ms: u64,
    pub database_url: Option<Seq<char>>,
    pub seed_dir: Option<Seq<char>>,
    pub plant_config_dir: Seq<char>,
    pub asset_dir: Seq<char>,
    pub pki_dir: Seq<char>,
    pub opcua_uri_override: Option<Seq<char>>,
    pub simulator_image: Seq<char>,
    pub backend_svc_url: Seq<char>,
    pub k8s_namespace: Seq<char>,
}

impl View for AppConfig {
    type V = AppConfigView;

    open spec fn view(&self) -> AppConfigView {
        AppConfigView {
            ws_host: self.ws_host@,
            ws_port: self.ws_port,
            tick_ms: self.tick_ms,
            database_url: opt_view(self.database_url),
            seed_dir: opt_view(self.seed_dir),
            plant_config_dir: self.plant_config_dir@,
            asset_dir: self.asset_dir@,
            pki_dir: self.pki_dir@,
            opcua_uri_override: opt_view(self.opcua_uri_override),
            simulator_image: self.simulator_image@,
            backend_svc_url: self.backend_svc_url@,
            k8s_namespace: self.k8s_namespace@,
        }
    }
}

/// A variable's value, or `default` when it is unset (an empty value is
/// kept).
pub open spec fn var_or(v: Option<Seq<char>>, default: Seq<char>) -> Seq<char> {
    match v {
        Some(s) => s,
        None => default,
    }
}

/// A variable's value when it is set and not empty.
pub open spec fn var_opt(v: Option<Seq<char>>) -> Option<Seq<char>> {
    match v {
        Some(s) => if s.len() > 0 { Some(s) } else { None },
        None => None,
    }
}

/// The configuration the environment gives, or the error text for a port or
/// tick interval that is not a number of the right size (the port is
/// checked first).
pub open spec fn app_config_of(env: EnvVars) -> Result<AppConfigView, Seq<char>> {
    match parse_in_range(var_or(opt_view(env.be_port), "3001"@), false, 0, u16::MAX as int) {
        None => Err("BE_PORT must be a valid u16"@),
        Some(port) => match parse_in_range(var_or(opt_view(env.be_tick_ms), "100"@), false, 0, u64::MAX as int) {
            None => Err("BE_TICK_MS must be a valid u64"@),
            Some(tick) => Ok(AppConfigView {
                ws_host: var_or(opt_view(env.be_host), "0.0.0.0"@),
                ws_port: port as u16,
                tick_ms: tick as u64,
                database_url: var_opt(opt_view(env.database_url)),
                seed_dir: var_opt(opt_view(env.seed_dir)),
                plant_config_dir: var_or(opt_view(env.plant_config), "/config"@),
                asset_dir: var_or(opt_view(env.asset_dir), "/data/assets"@),
                pki_dir: var_or(opt_view(env.pki_dir), "./pki"@),
                opcua_uri_override: var_opt(opt_view(env.opcua_uri_override)),
                simulator_image: var_or(opt_view(env.simulator_image), "factory-sim/simulator:latest"@),
                backend_svc_url: match var_opt(opt_view(env.backend_svc_url)) {
                    Some(u) => u,
                    None => "http://backend:"@ + decimal(port as nat),
                },
                k8s_namespace: var_or(opt_view(env.k8s_namespace), "default"@),
            }),
        },
    }
}

/// A variable's value, or `default` when it is unset.
fn read_or(v: &Option<String>, default: &str) -> (r: String)
    ensures
        r@ == var_or(opt_view(*v), default@),
{
    match v {
        Some(s) => s.clone(),
        None => owned(default),
    }
}

/// A variable's value when it is set and not empty.
fn read_opt(v: &Option<String>) -> (r: Option<String>)
    ensures
        opt_view(r) == var_opt(opt_view(*v)),
{
    match v {
        Some(s) => {
            if chars_of(s.as_str()).len() > 0 {
                Some(s.clone())
            } else {
                None
            }
        },
        None => None,
    }
}

impl AppConfig {
    /// The configuration from the environment's variables (see
    /// `app_config_of`); the only errors are a bad `BE_PORT` or `BE_TICK_MS`.
    pub fn from_env(env: &EnvVars) -> (r: Result<AppConfig, String>)
        ensures
            match r {
                Ok(c) => app_config_of(*env) == Ok::<AppConfigView, Seq<char>>(c@),
                Err(e) => app_config_of(*env) == Err::<AppConfigView, Seq<char>>(e@),
            },
    {
        let ws_host = read_or(&env.be_host, "0.0.0.0");
        let port_text = read_or(&env.be_port, "3001");
        let ws_port = match parse_u16(port_text.as_str()) {
            Some(p) => p,
            None => return Err(owned("BE_PORT must be a valid u16")),
        };
        let tick_text = read_or(&env.be_tick_ms, "100");
        let tick_ms = match parse_u64(tick_text.as_str()) {
            Some(t) => t,
            None => return Err(owned("BE_TICK_MS must be a valid u64")),
        };
        let backend_svc_url = match read_opt(&env.backend_svc_url) {
            Some(u) => u,
            None => concat2("http://backend:", u64_text(ws_port as u64).as_str()),
        };
        Ok(AppConfig {
            ws_host,
            ws_port,
            tick_ms,
            database_url: read_opt(&env.database_url),
            seed_dir: read_opt(&env.seed_dir),
            plant_config_dir: read_or(&env.plant_config, "/config"),
            asset_dir: read_or(&env.asset_dir, "/data/assets"),
            pki_dir: read_or(&env.pki_dir, "./pki"),
            opcua_uri_override: read_opt(&env.opcua_uri_override),
            simulator_image: read_or(&env.simulator_image, "factory-sim/simulator:latest"),
            backend_svc_url,
            k8s_namespace: read_or(&env.k8s_namespace, "default"),
        })
    }
}

// ============================================================================
// Local asset store
// ============================================================================

/// Why an asset operation failed: an I/O error, with its message.
#[derive(Clone, Debug)]
pub enum AssetError {
    Io(String),
}

impl AssetError {
    /// The error's text: `I/O error: ` and the I/O error's message.
    pub fn message(&self) -> (r: String)
        ensures
            match self {
                AssetError::Io(m) => r@ == "I/O error: "@ + m@,
            },
    {
        match self {
            AssetError::Io(m) => concat2("I/O error: ", m.as_str()),
        }
    }
}

/// A store of assets (models, icons) under string keys.
pub trait AssetStore {
    /// Store bytes under a key.
    fn put(&self, key: &str, data: &[u8]) -> Result<(), AssetError>;
    /// The bytes stored under a key, or `None` when there are none.
    fn get(&self, key: &str) -> Result<Option<Vec<u8>>, AssetError>;
    /// Remove a key; removing a missing key succeeds.
    fn delete(&self, key: &str) -> Result<(), AssetError>;
}

/// `s` with every non-overlapping `..`, scanning from the left, replaced by
/// `__` (as `str::replace` does).
pub open spec fn replace_dotdot(s: Seq<char>) -> Seq<char>
    decreases s.len(),
{
    if s.len() >= 2 && s[0] == '.' && s[1] == '.' {
        seq!['_', '_'] + replace_dotdot(s.skip(2))
    } else if s.len() == 0 {
        Seq::empty()
    } else {
        seq![s[0]] + replace_dotdot(s.skip(1))
    }
}

/// The path separator `/`.
pub open spec fn is_sep(c: char) -> bool {
    c == '/'
}

/// `s` without its leading `/`.
pub open spec fn trim_leading_seps(s: Seq<char>) -> Seq<char>
    decreases s.len(),
{
    if s.len() > 0 && is_sep(s[0]) {
        trim_leading_seps(s.skip(1))
    } else {
        s
    }
}

/// The key a store files data under: leading `/` dropped (so that the key
/// never names an absolute path), then every `..` replaced by `__`.
pub open spec fn safe_key_text(key: Seq<char>) -> Seq<char> {
    replace_dotdot(trim_leading_seps(key))
}

/// A local filesystem store under the directory `root`; keys are paths
/// relative to it.
#[derive(Clone, Debug)]
pub struct LocalStore {
    pub root: String,
}

impl LocalStore {
    /// A store under `root`.
    pub fn new(root: String) -> (r: LocalStore)
        ensures
            r.root@ == root@,
    {
        LocalStore { root }
    }

    /// The key with path traversal taken out: leading `/` are dropped and
    /// every `..` becomes `__` (see `safe_key_text`).
    pub fn safe_key(key: &str) -> (r: String)
        ensures
            r@ == safe_key_text(key@),
    {
        let cs = chars_of(key);
        let mut i: usize = 0;
        assert(cs@.skip(0) =~= cs@);
        while i < cs.len() && cs[i] == '/'
            invariant
                cs@ == key@,
                i <= cs.len(),
                trim_leading_seps(cs@.skip(i as int)) == trim_leading_seps(key@),
            decreases cs.len() - i,
        {
            assert(cs@.skip(i as int).skip(1) =~= cs@.skip(i + 1));
            i = i + 1;
        }
        let ghost t = cs@.skip(i as int);
        assert(trim_leading_seps(t) == t);
        let mut r = String::new();
        assert(r@ + replace_dotdot(cs@.skip(i as int)) =~= replace_dotdot(t));
        while i < cs.len()
            invariant
                cs@ == key@,
                i <= cs.len(),
                trim_leading_seps(key@) == t,
                r@ + replace_dotdot(cs@.skip(i as int)) == replace_dotdot(t),
            decreases cs.len() - i,
        {
            let ghost rest = cs@.skip(i as int);
            if i + 1 < cs.len() && cs[i] == '.' && cs[i + 1] == '.' {
                assert(rest[0] == '.' && rest[1] == '.');
                assert(rest.skip(2) =~= cs@.skip(i + 2));
                let ghost before = r@;
                r.push('_');
                r.push('_');
                assert(r@ =~= before + seq!['_', '_']);
                assert(before + replace_dotdot(rest) =~= r@ + replace_dotdot(cs@.skip(i + 2)));
                i = i + 2;
            } else {
                assert(rest[0] == cs@[i as int]);
                assert(rest.skip(1) =~= cs@.skip(i + 1));
                let ghost before = r@;
                r.push(cs[i]);
                assert(r@ =~= before + seq![cs@[i as int]]);
                assert(before + replace_dotdot(rest) =~= r@ + replace_dotdot(cs@.skip(i + 1)));
                i = i + 1;
            }
        }
        assert(cs@.skip(cs.len() as int) =~= Seq::<char>::empty());
        assert(r@ + Seq::<char>::empty() =~= r@);
        r
    }

    /// The file a key is stored in: the safe key (see `safe_key`) joined
    /// under the root by the platform's path rules. Under a plain root, a
    /// safe key that is plainly relative lands below the root: the path is
    /// the root, one separator and the safe key.
    pub fn path_for(&self, key: &str) -> (r: std::path::PathBuf)
        ensures
            r == joined_path(self.root@, safe_key_text(key@)),
            plain_root(self.root@) && plain_relative(safe_key_text(key@)) ==>
                path_text(r) == self.root@ + seq!['/'] + safe_key_text(key@)
                || path_text(r) == self.root@ + seq!['\\'] + safe_key_text(key@),
    {
        let safe = Self::safe_key(key);
        join_path(self.root.as_str(), safe.as_str())
    }
}

/// `std::path::PathBuf`, carried through unchanged.
#[verifier::external_type_specification]
#[verifier::external_body]
pub struct ExPathBuf(std::path::PathBuf);

/// What `Path::new(root).join(rel)` returns: a function of the two texts
/// alone, under the path rules of the target the crate is built for.
pub uninterp spec fn joined_path(root: Seq<char>, rel: Seq<char>) -> std::path::PathBuf;

/// The text of a path: the characters of its `OsStr` (a path built and
/// joined from UTF-8 text is UTF-8 text).
pub uninterp spec fn path_text(p: std::path::PathBuf) -> Seq<char>;

/// A root that `PathBuf::push` extends by one separator and then the pushed
/// path: not empty, not ending in a separator (`/`, or `\\` on Windows) or
/// in `:` (a bare Windows drive), and not starting with `\\` (a Windows UNC
/// or verbatim path).
pub open spec fn plain_root(root: Seq<char>) -> bool {
    &&& root.len() > 0
    &&& root.last() != '/' && root.last() != '\\' && root.last() != ':'
    &&& root[0] != '\\'
}

/// A path that is relative on every platform: it starts with neither `/`
/// nor `\\` (a root) and has no drive prefix (`:` as its second character).
pub open spec fn plain_relative(rel: Seq<char>) -> bool {
    &&& rel.len() == 0 || (rel[0] != '/' && rel[0] != '\\')
    &&& rel.len() < 2 || rel[1] != ':'
}

/// Calls `Path::join` on `root` and `rel`; its result is the named
/// `joined_path` of the two texts. As `PathBuf::push` documents, a relative
/// path extends the root: under a plain root a plainly relative path is
/// appended after one separator, the target's main separator (`/`, or `\\`
/// on Windows). What an absolute or prefixed `rel` gives is left unsaid.
#[verifier::external_body]
fn join_path(root: &str, rel: &str) -> (r: std::path::PathBuf)
    ensures
        r == joined_path(root@, rel@),
        plain_root(root@) && plain_relative(rel@) ==>
            path_text(r) == root@ + seq!['/'] + rel@ || path_text(r) == root@ + seq!['\\'] + rel@,
{
    std::path::Path::new(root).join(rel)
}

/// A safe key is relative: it is empty or does not start with `/`, so
/// joining it under the store's root never replaces the root.
pub proof fn safe_key_is_relative(key: Seq<char>)
    ensures
        safe_key_text(key).len() == 0 || !is_sep(safe_key_text(key)[0]),
    decreases key.len(),
{
    if key.len() > 0 && is_sep(key[0]) {
        safe_key_is_relative(key.skip(1));
    } else {
        let t = key;
        if t.len() >= 2 && t[0] == '.' && t[1] == '.' {
            assert(replace_dotdot(t) == seq!['_', '_'] + replace_dotdot(t.skip(2)));
        } else if t.len() > 0 {
            assert(replace_dotdot(t) == seq![t[0]] + replace_dotdot(t.skip(1)));
        }
    }
}

/// Replacing `..` leaves no `..` behind.
pub proof fn safe_key_has_no_dotdot(s: Seq<char>)
    ensures
        forall|i: int| 0 <= i < replace_dotdot(s).len() - 1 ==>
            !(#[trigger] replace_dotdot(s)[i] == '.' && replace_dotdot(s)[i + 1] == '.'),
    decreases s.len(),
{
    let r = replace_dotdot(s);
    if s.len() >= 2 && s[0] == '.' && s[1] == '.' {
        safe_key_has_no_dotdot(s.skip(2));
        let t = replace_dotdot(s.skip(2));
        assert forall|i: int| 0 <= i < r.len() - 1 implies !(#[trigger] r[i] == '.' && r[i + 1] == '.') by {
            if i >= 2 {
                assert(r[i] == t[i - 2] && r[i + 1] == t[i - 1]);
            }
        }
    } else if s.len() > 0 {
        safe_key_has_no_dotdot(s.skip(1));
        let t = replace_dotdot(s.skip(1));
        assert forall|i: int| 0 <= i < r.len() - 1 implies !(#[trigger] r[i] == '.' && r[i + 1] == '.') by {
            if i >= 1 {
                assert(r[i] == t[i - 1] && r[i + 1] == t[i]);
            } else if s[0] == '.' {
                lemma_dotdot_head(s.skip(1));
            }
        }
    }
}

/// After a `.` that did not start a `..`, the rest does not start with `.`.
proof fn lemma_dotdot_head(t: Seq<char>)
    requires
        t.len() == 0 || t[0] != '.',
    ensures
        replace_dotdot(t).len() == 0 || replace_dotdot(t)[0] != '.',
{
    if t.len() >= 1 {
        assert(replace_dotdot(t) == seq![t[0]] + replace_dotdot(t.skip(1)));
    }
}

} // verus!
