//! The watcher, which keeps the launcher running, and the processes that it finds and stops.

pub mod macos;
pub mod processes;
pub mod setup;
pub mod stopping;

pub use processes::{
    codex_process_ids, filter_killable_launcher_processes,
    filter_macos_codex_related_port_owner_processes, find_codex_processes, ProcessEntry,
};
pub use setup::{
    build_spawn_launcher_command, build_watcher_install_plan, disable_watcher_at,
    enable_watcher_at, install_watcher, uninstall_watcher, watcher_disabled_flag,
    WatcherInstallPlan, WATCHER_RUN_KEY, WATCHER_RUN_NAME, WATCHER_STARTUP_SHORTCUT_NAME,
};
pub use stopping::{
    should_recover_stale_launcher, stop_codex_processes, stop_codex_processes_at,
    stop_codex_related_processes_listening_on_ports, stop_launcher_processes,
};
