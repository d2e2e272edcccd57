use vstd::prelude::*;

verus! {

/// Sent when the engine's observed health changes.
#[derive(Clone, Copy, Debug, PartialEq, Eq, Structural)]
pub struct MihomoStatusEvent {
    pub running: bool,
    pub process_id: Option<u32>,
    pub timestamp: u64,
}

/// Sent when the configuration file was written.
pub struct ConfigChangeEvent {
    pub config_path: String,
    pub timestamp: u64,
}

/// Sent when a proxy group switched proxies.
pub struct ProxyChangeEvent {
    pub group_name: String,
    pub proxy_name: String,
    pub timestamp: u64,
}

/// What the application knows of the engine.
#[derive(Clone, Copy, Debug, PartialEq, Eq, Structural)]
pub struct AppState {
    pub mihomo_running: bool,
    pub mihomo_process: Option<u32>,
}

impl Default for AppState {
    fn default() -> (r: AppState)
        ensures
            !r.mihomo_running,
            r.mihomo_process is None,
    {
        AppState { mihomo_running: false, mihomo_process: None }
    }
}

/// The event that announces the health `running` observed at `timestamp`.
pub fn status_event(running: bool, timestamp: u64) -> (r: MihomoStatusEvent)
    ensures
        r == (MihomoStatusEvent { running, process_id: None, timestamp }),
{
    MihomoStatusEvent { running, process_id: None, timestamp }
}

} // verus!
