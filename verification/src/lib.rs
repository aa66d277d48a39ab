//! Verified core of a ZFS-first Arch Linux installer: configuration-file
//! editing, command-line and report parsing, package, pool and dataset
//! planning, download scheduling and bookkeeping, the wifi backends'
//! decisions, the cleanup of what an installation owns, and the wizard's
//! list logic.

pub mod text;
pub mod path;
pub mod sort;
pub mod conf;
pub mod pacman;
pub mod gpu;
pub mod sysinfo;
pub mod wifi_cli;
pub mod wifi;
pub mod wifi_listing;
pub mod wifi_retry;
pub mod wifi_mock;
pub mod download;
pub mod download_schedule;
pub mod cmd;
pub mod run_log;
pub mod boot_environment;
pub mod zrepl;
pub mod zfs_setup;
pub mod zfs;
pub mod zfs_keyfile;
pub mod zfs_cleanup;
pub mod target_dir;
pub mod mirrors;
pub mod net_probe;
pub mod config_items;
pub mod format;
pub mod storage;
pub mod preview;
pub mod controllers;
pub mod alpm_space;
pub mod digest;
pub mod wizard;
pub mod popup;
pub mod config_file;
pub mod apt;
pub mod console_session;
pub mod installed_shell;
