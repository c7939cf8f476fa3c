//! Backend-specific overrides (escape hatch for features not in the canonical spec).
use vstd::prelude::*;

use crate::json::JsonValue;
use crate::strmap::StrMap;

verus! {

/// Raw directives injected into the backend-native configuration.
#[derive(Debug, Clone)]
pub struct BackendOverrides {
    /// Raw systemd unit directives, keyed by section
    /// (e.g., `{"Service": {"LimitNOFILE": "65536"}}`).
    pub systemd: StrMap<StrMap<String>>,
    /// Raw launchd plist keys.
    pub launchd: StrMap<JsonValue>,
}

impl Default for BackendOverrides {
    fn default() -> (r: Self)
        ensures
            r.systemd@.len() == 0,
            r.launchd@.len() == 0,
    {
        BackendOverrides { systemd: StrMap::new(), launchd: StrMap::new() }
    }
}

} // verus!
