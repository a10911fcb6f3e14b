//! Configuration slices: each component receives only the immutable piece
//! of configuration it needs, as plain values.

use vstd::prelude::*;
use vstd::string::StringExecFns;

verus! {

/// Configuration of the generation agent: which provider the agent
/// subprocess is told to use.
pub struct LLMConfig {
    pub provider: String,
}

/// Configuration of the maintenance scheduler: whether the timer loop is
/// on, and the ordered list of project paths to sweep.
pub struct SchedulerConfig {
    pub enabled: bool,
    pub projects: Vec<String>,
}

/// Configuration of the service-failure monitor: whether it listens, and
/// which service units it watches.
pub struct SystemdMonitorConfig {
    pub enabled: bool,
    pub units: Vec<String>,
}

/// Configuration of the dashboard's static file serving.
pub struct WebConfig {
    pub static_dir: String,
}

/// Configuration of the durable store: where its files live.
pub struct CacheConfig {
    pub path: String,
}

/// The whole configuration, assembled by the host program.
pub struct Config {
    pub llm: LLMConfig,
    pub scheduler: SchedulerConfig,
    pub systemd_monitor: SystemdMonitorConfig,
    pub web: WebConfig,
    pub cache: CacheConfig,
}

impl WebConfig {
    /// Default directory for static frontend assets.
    pub fn default_static_dir() -> (r: String)
        ensures
            r@ == "frontend/dist"@,
    {
        String::from_str("frontend/dist")
    }
}

} // verus!
