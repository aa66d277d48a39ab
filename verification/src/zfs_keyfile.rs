//! Encryption key file lifecycle on the install target: the path
//! convention (`/etc/zfs/zroot.key`) and the property bundles that pin a
//! pool or dataset to that file via `keylocation=file://...`.

pub use crate::zfs::encryption::{
    dataset_encryption_properties, key_file_path, pool_encryption_properties,
};
