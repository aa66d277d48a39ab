//! Encryption key file location and the properties that pin a pool or
//! dataset to it.

use vstd::prelude::*;

use crate::text::{chars_eq, chars_of, chars_to_string, extend_str, join_path, joined_path};

verus! {

/// Where the key file lives, relative to the target root.
pub const KEY_FILE_PATH: &'static str = "etc/zfs/zroot.key";

/// The key file of the system installed at `target`.
pub fn key_file_path(target: &str) -> (r: String)
    ensures
        r@ == joined_path(target@, KEY_FILE_PATH@),
{
    join_path(target, KEY_FILE_PATH)
}

/// `encryption=aes-256-gcm`, `keyformat=passphrase` and
/// `keylocation=file://<key_path>`, in that order.
pub open spec fn encryption_properties(key_path: Seq<char>) -> Seq<(Seq<char>, Seq<char>)> {
    seq![
        ("encryption"@, "aes-256-gcm"@),
        ("keyformat"@, "passphrase"@),
        ("keylocation"@, "file://"@ + key_path),
    ]
}

/// A property list as plain values.
pub open spec fn property_views(v: Seq<(&'static str, String)>) -> Seq<(Seq<char>, Seq<char>)> {
    v.map_values(|p: (&'static str, String)| (p.0@, p.1@))
}

pub fn pool_encryption_properties(key_path: &str) -> (r: Vec<(&'static str, String)>)
    ensures
        property_views(r@) == encryption_properties(key_path@),
{
    let mut loc = chars_of("file://");
    extend_str(&mut loc, key_path);
    let r = vec![
        ("encryption", "aes-256-gcm".to_string()),
        ("keyformat", "passphrase".to_string()),
        ("keylocation", chars_to_string(&loc)),
    ];
    assert(property_views(r@) =~= encryption_properties(key_path@));
    r
}

pub fn dataset_encryption_properties(key_path: &str) -> (r: Vec<(&'static str, String)>)
    ensures
        property_views(r@) == encryption_properties(key_path@),
{
    pool_encryption_properties(key_path)
}

/// Whether a pool's `encryption` property says it is encrypted: it is
/// reported, and not `off`.
pub fn encryption_active(value: &str) -> (r: bool)
    ensures
        r == (value@.len() > 0 && value@ != "off"@),
{
    let v = chars_of(value);
    v.len() > 0 && !chars_eq(&v, &chars_of("off"))
}

} // verus!
