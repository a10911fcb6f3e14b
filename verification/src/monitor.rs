//! The service-failure monitor's decisions: what it records when it starts
//! listening (or is disabled), and what each poll tick writes.

use vstd::prelude::*;
use vstd::string::StringExecFns;

use crate::config::Config;
use crate::text::{clone_string_vec, dec_str, u64_to_dec};

verus! {

/// Watches configured service units and records its status and the time
/// of its last check in the status store; the polling loop itself is the
/// host program's.
pub struct SystemdMonitor {
    enabled: bool,
    units: Vec<String>,
}

impl SystemdMonitor {
    /// Whether the monitor is turned on.
    pub closed spec fn enabled_spec(&self) -> bool {
        self.enabled
    }

    /// The units it watches.
    pub closed spec fn units_spec(&self) -> Seq<Seq<char>> {
        self.units.deep_view()
    }

    /// Builds the monitor from the configuration slice it needs.
    pub fn new(config: &Config) -> (m: Self)
        ensures
            m.enabled_spec() == config.systemd_monitor.enabled,
            m.units_spec() == config.systemd_monitor.units.deep_view(),
    {
        SystemdMonitor {
            enabled: config.systemd_monitor.enabled,
            units: clone_string_vec(&config.systemd_monitor.units),
        }
    }

    /// Whether the monitor is turned on.
    pub fn is_enabled(&self) -> (r: bool)
        ensures
            r == self.enabled_spec(),
    {
        self.enabled
    }

    /// The units the monitor watches.
    pub fn units(&self) -> (r: Vec<String>)
        ensures
            r.deep_view() == self.units_spec(),
    {
        clone_string_vec(&self.units)
    }

    /// The store writes made when the monitor starts: disabled, it records
    /// only that; enabled, it records that it is listening and an empty
    /// failure list.
    pub fn initial_writes(&self) -> (w: Vec<(String, String)>)
        ensures
            self.enabled_spec() ==> w.deep_view() == seq![
                ("systemd.status"@, "listening"@),
                ("systemd.failures"@, "[]"@),
            ],
            !self.enabled_spec() ==> w.deep_view() == seq![("systemd.status"@, "disabled"@)],
    {
        let mut w: Vec<(String, String)> = Vec::new();
        if self.enabled {
            w.push((String::from_str("systemd.status"), String::from_str("listening")));
            w.push((String::from_str("systemd.failures"), String::from_str("[]")));
            proof {
                assert(w.deep_view() =~~= seq![
                    ("systemd.status"@, "listening"@),
                    ("systemd.failures"@, "[]"@),
                ]);
            }
        } else {
            w.push((String::from_str("systemd.status"), String::from_str("disabled")));
            proof {
                assert(w.deep_view() =~~= seq![("systemd.status"@, "disabled"@)]);
            }
        }
        w
    }

    /// The store write of one poll tick: the last-checked timestamp in
    /// seconds, in decimal.
    pub fn tick_write(&self, now: u64) -> (w: (String, String))
        ensures
            w.0@ == "systemd.last_checked"@,
            w.1@ == dec_str(now as nat),
    {
        (String::from_str("systemd.last_checked"), u64_to_dec(now))
    }
}

} // verus!
