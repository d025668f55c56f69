//! Inference daemon configuration. Defaults are dev-friendly: loopback
//! port 7777, the stub engine, no D-Bus, and the remote tier off.

use crate::text::{owned, split_after_prefix, split_prefixed, str_eq};
use vstd::prelude::*;

verus! {

/// Where the OpenAI-compatible endpoint listens.
#[derive(Debug, Clone)]
pub struct Bind(pub String);

impl Default for Bind {
    fn default() -> (b: Bind)
        ensures
            b.0@ == "127.0.0.1:7777"@,
    {
        Bind(owned("127.0.0.1:7777"))
    }
}

/// Which engine serves requests.
#[derive(Debug, Clone, Copy, PartialEq, Eq, Structural)]
pub enum EngineKind {
    /// Deterministic echo engine for tests and plumbing demos.
    Stub,
    /// Supervised llama-server child.
    Llama,
}

impl Default for EngineKind {
    fn default() -> (k: EngineKind)
        ensures
            k == EngineKind::Stub,
    {
        EngineKind::Stub
    }
}

/// The supervised llama-server settings (paths as text).
#[derive(Debug, Clone)]
pub struct LlamaConfig {
    /// llama-server binary; resolved via PATH by default.
    pub server_bin: String,
    pub model_path: Option<String>,
    /// The model store's refs dir; when set (and no `model_path`), any
    /// model in it is served by name.
    pub models_dir: Option<String>,
    /// Which model a bare request resolves to.
    pub default_model: Option<String>,
    /// Port the supervised child listens on (loopback only).
    pub port: u16,
    /// Extra llama-server arguments.
    pub extra_args: Vec<String>,
    /// Resident-model cap: children beyond this are evicted least recently
    /// used first.
    pub max_resident: usize,
}

impl Default for LlamaConfig {
    fn default() -> (c: LlamaConfig)
        ensures
            c.server_bin@ == "llama-server"@,
            c.model_path is None,
            c.models_dir is None,
            c.default_model is None,
            c.port == 7778,
            c.extra_args@.len() == 0,
            c.max_resident == 2,
    {
        LlamaConfig {
            server_bin: owned("llama-server"),
            model_path: None,
            models_dir: None,
            default_model: None,
            port: 7778,
            extra_args: Vec::new(),
            max_resident: 2,
        }
    }
}

/// The `remote:byo` tier: requests are handed to the egress broker over a
/// local socket; off by default, so nothing leaves the device.
#[derive(Debug, Clone)]
pub struct RemoteConfig {
    pub enabled: bool,
    pub socket: Option<String>,
}

impl Default for RemoteConfig {
    fn default() -> (c: RemoteConfig)
        ensures
            !c.enabled,
            c.socket is None,
    {
        RemoteConfig { enabled: false, socket: None }
    }
}

/// Daemon configuration.
#[derive(Debug, Clone)]
pub struct Config {
    pub bind: Bind,
    pub engine: EngineKind,
    /// Register org.lisa.Inference1 on the session bus.
    pub dbus: bool,
    pub llama: LlamaConfig,
    pub remote: RemoteConfig,
}

impl Default for Config {
    fn default() -> (c: Config)
        ensures
            c.bind.0@ == "127.0.0.1:7777"@,
            c.engine == EngineKind::Stub,
            !c.dbus,
            c.llama.server_bin@ == "llama-server"@,
            c.llama.model_path is None,
            c.llama.models_dir is None,
            c.llama.default_model is None,
            c.llama.port == 7778,
            c.llama.extra_args@.len() == 0,
            c.llama.max_resident == 2,
            !c.remote.enabled,
            c.remote.socket is None,
    {
        Config {
            bind: Bind::default(),
            engine: EngineKind::default(),
            dbus: false,
            llama: LlamaConfig::default(),
            remote: RemoteConfig::default(),
        }
    }
}

/// Model hints of the shape `remote:byo:<provider>:<model>` route to the
/// broker.
pub const REMOTE_BYO_PREFIX: &'static str = "remote:byo:";

/// Split a `remote:byo:` model hint into (provider, model), if it is one.
/// Only the first `:` after the provider splits; the model may hold more.
pub fn parse_remote_hint(hint: &str) -> (r: Option<(&str, &str)>)
    ensures
        match r {
            Some((p, m)) => split_prefixed(hint@, "remote:byo:"@) == Some((p@, m@)),
            None => split_prefixed(hint@, "remote:byo:"@) is None,
        },
{
    split_after_prefix(hint, "remote:byo:")
}

/// The engine a command-line engine name selects.
pub open spec fn engine_named(name: Seq<char>) -> Option<EngineKind> {
    if name == "stub"@ {
        Some(EngineKind::Stub)
    } else if name == "llama"@ {
        Some(EngineKind::Llama)
    } else {
        None
    }
}

/// Apply the command-line overrides to the loaded configuration: the
/// bind address; a model file or a models dir (either selects llama); and
/// last an explicit engine, which wins. An unknown engine name is refused.
pub fn apply_overrides(
    cfg: &mut Config,
    bind: Option<String>,
    engine: Option<&str>,
    model: Option<String>,
    models_dir: Option<String>,
) -> (r: Result<(), String>)
    ensures
        match engine {
            Some(e) => engine_named(e@) is None <==> r is Err,
            None => r is Ok,
        },
        r matches Err(m) ==> m@ == "unknown engine `"@ + engine->Some_0@ + "` (stub | llama)"@,
        r is Ok ==> {
            &&& final(cfg).bind.0@ == (match bind {
                Some(b) => b@,
                None => old(cfg).bind.0@,
            })
            &&& final(cfg).llama.model_path == (match model {
                Some(m) => Some(m),
                None => old(cfg).llama.model_path,
            })
            &&& final(cfg).llama.models_dir == (match models_dir {
                Some(d) => Some(d),
                None => old(cfg).llama.models_dir,
            })
            &&& final(cfg).engine == (match engine {
                Some(e) => engine_named(e@)->Some_0,
                None => if model is Some || models_dir is Some {
                    EngineKind::Llama
                } else {
                    old(cfg).engine
                },
            })
            &&& final(cfg).dbus == old(cfg).dbus
        },
{
    proof {
        reveal_strlit("stub");
        reveal_strlit("llama");
    }
    if let Some(b) = bind {
        cfg.bind = Bind(b);
    }
    if let Some(m) = model {
        cfg.llama.model_path = Some(m);
        cfg.engine = EngineKind::Llama;
    }
    if let Some(d) = models_dir {
        cfg.llama.models_dir = Some(d);
        cfg.engine = EngineKind::Llama;
    }
    match engine {
        Some(e) => {
            if str_eq(e, "stub") {
                cfg.engine = EngineKind::Stub;
            } else if str_eq(e, "llama") {
                cfg.engine = EngineKind::Llama;
            } else {
                let mut m = owned("unknown engine `");
                m.append(e);
                m.append("` (stub | llama)");
                return Err(m);
            }
        },
        None => {},
    }
    Ok(())
}

} // verus!
