use mainteno::config::{
    CacheConfig, Config, LLMConfig, SchedulerConfig, SystemdMonitorConfig, WebConfig,
};
use mainteno::gate::RunGate;
use mainteno::monitor::SystemdMonitor;
use mainteno::oracle::{get_head_hash, should_skip, HeadResolution};
use mainteno::patcher::{cached_patch, record_patch_output};
use mainteno::restarter::unit_name;
use mainteno::store::StatusStore;
use mainteno::text::u64_to_dec;

#[test]
fn gate_grants_exactly_one_permit() {
    let mut gate = RunGate::new();
    // two simultaneous trigger requests: exactly the first one runs
    let first = gate.try_acquire();
    let second = gate.try_acquire();
    assert!(first);
    assert!(!second);
    // after the pass releases the permit, the next trigger may run
    gate.release();
    assert!(gate.try_acquire());
}

#[test]
fn head_resolution_follows_one_symbolic_level() {
    match get_head_hash("ref: refs/heads/main\n") {
        HeadResolution::Symbolic(r) => assert_eq!(r, "refs/heads/main"),
        HeadResolution::Direct(_) => panic!("expected a symbolic reference"),
    }
    match get_head_hash("0123abcd\n") {
        HeadResolution::Direct(h) => assert_eq!(h, "0123abcd"),
        HeadResolution::Symbolic(_) => panic!("expected a direct revision"),
    }
}

#[test]
fn skip_only_on_exact_fingerprint_match() {
    let mut store = StatusStore::new();
    store.insert("fp:p".to_string(), "abc".to_string());
    assert!(should_skip(&store, "p", &Some("abc".to_string())));
    assert!(!should_skip(&store, "p", &Some("abd".to_string())));
    assert!(!should_skip(&store, "p", &None));
    assert!(!should_skip(&store, "q", &Some("abc".to_string())));
}

#[test]
fn patch_generator_caches_non_empty_output() {
    let mut store = StatusStore::new();
    assert!(cached_patch(&store, "p", "h1").is_none());
    let r = record_patch_output(&mut store, "p", "h1", "  a patch body \n");
    assert_eq!(r.as_deref(), Some("a patch body"));
    assert_eq!(cached_patch(&store, "p", "h1").as_deref(), Some("a patch body"));
    // a different revision misses the cache
    assert!(cached_patch(&store, "p", "h2").is_none());
    // empty output yields nothing and caches nothing
    let none = record_patch_output(&mut store, "p", "h2", "   \n");
    assert!(none.is_none());
    assert!(cached_patch(&store, "p", "h2").is_none());
}

#[test]
fn unit_name_is_last_segment_with_suffix() {
    assert_eq!(unit_name("/home/pi/projects/webapp"), "webapp.service");
    assert_eq!(unit_name("webapp"), "webapp.service");
    assert_eq!(unit_name("/srv/deep/nested/tool"), "tool.service");
}

#[test]
fn decimal_formatting_matches_to_string() {
    assert_eq!(u64_to_dec(0), "0");
    assert_eq!(u64_to_dec(7), "7");
    assert_eq!(u64_to_dec(12345), "12345");
    assert_eq!(u64_to_dec(u64::MAX), u64::MAX.to_string());
}

fn test_config(enabled: bool) -> Config {
    Config {
        llm: LLMConfig { provider: "openai".to_string() },
        scheduler: SchedulerConfig { enabled: true, projects: vec!["p".to_string()] },
        systemd_monitor: SystemdMonitorConfig {
            enabled,
            units: vec!["webapp.service".to_string()],
        },
        web: WebConfig { static_dir: WebConfig::default_static_dir() },
        cache: CacheConfig { path: "/tmp/cache".to_string() },
    }
}

#[test]
fn monitor_records_listening_state() {
    let m = SystemdMonitor::new(&test_config(true));
    assert!(m.is_enabled());
    let w = m.initial_writes();
    assert_eq!(w.len(), 2);
    assert_eq!(w[0], ("systemd.status".to_string(), "listening".to_string()));
    assert_eq!(w[1], ("systemd.failures".to_string(), "[]".to_string()));
    let (k, v) = m.tick_write(1700000000);
    assert_eq!(k, "systemd.last_checked");
    assert_eq!(v, "1700000000");
    assert_eq!(m.units(), vec!["webapp.service".to_string()]);
}

#[test]
fn disabled_monitor_records_only_that() {
    let m = SystemdMonitor::new(&test_config(false));
    assert!(!m.is_enabled());
    let w = m.initial_writes();
    assert_eq!(w.len(), 1);
    assert_eq!(w[0], ("systemd.status".to_string(), "disabled".to_string()));
}

#[test]
fn default_static_dir_is_frontend_dist() {
    assert_eq!(WebConfig::default_static_dir(), "frontend/dist");
}
