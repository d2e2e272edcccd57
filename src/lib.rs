pub mod backup;
pub mod config;
pub mod events;
pub mod platform;
pub mod stamp;
pub mod store;
pub mod supervisor;
pub mod text;

pub use backup::{
    is_backup_file_name, list_backup_entries, list_backups, prune_selection, rename_target,
    renamed_backup_name, sanitize_label, BackupEntry, BackupError, PrunePlan,
};
pub use config::{DnsConfig, MihomoConfig, TunConfig};
pub use events::{AppState, ConfigChangeEvent, MihomoStatusEvent, ProxyChangeEvent};
pub use platform::{
    get_config_path, CommonSettings, Os, PathResolver, PlatformConfig, PlatformError, PlatformPaths,
    PlatformSettings,
};
pub use stamp::Timestamp;
pub use store::{FileRef, FsStep, StoreError};
pub use supervisor::{ProcessWatchdog, SupervisorState, TickAction};
