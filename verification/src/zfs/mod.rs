//! ZFS pools and datasets, encryption, the boot menu and the list cache.

pub mod bootmenu;
pub mod cache;
pub mod dataset;
pub mod encryption;
pub mod pool;
