//! Project-level settings read from `.blastguard/config.toml`.

use vstd::prelude::*;

verus! {

/// Settings of one project.
#[derive(Debug, Clone)]
pub struct Config {
    /// Overrides runner auto-detection, e.g. `"pytest -x --tb=short"`.
    pub test_command: Option<String>,
    /// Watcher debounce window in milliseconds.
    pub watcher_debounce_ms: Option<u64>,
}

impl Default for Config {
    /// No overrides.
    fn default() -> (r: Self)
        ensures
            r.test_command is None,
            r.watcher_debounce_ms is None,
    {
        Config { test_command: None, watcher_debounce_ms: None }
    }
}

} // verus!
