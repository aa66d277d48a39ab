//! The properties a new pool is created with.

use vstd::prelude::*;

use crate::zfs::dataset::prop_views;

verus! {

/// What `zpool create` is given besides the name and the device.
#[derive(Debug, Clone)]
pub struct PoolSettings {
    /// Pool properties (`-o`).
    pub pool_properties: Vec<(String, String)>,
    /// Properties of the root filesystem (`-O`), in the order given.
    pub fs_properties: Vec<(String, String)>,
    /// The root filesystem's mountpoint.
    pub mountpoint: String,
}

/// The filesystem defaults: POSIX ACLs, relatime, xattrs in inodes,
/// automatic dnode size, Unicode normalization form D, no device nodes;
/// then the chosen compression and the caller's extra properties.
pub open spec fn fs_defaults(compression: Seq<char>, extra: Seq<(Seq<char>, Seq<char>)>) -> Seq<
    (Seq<char>, Seq<char>),
> {
    seq![
        ("acltype"@, "posixacl"@),
        ("relatime"@, "on"@),
        ("xattr"@, "sa"@),
        ("dnodesize"@, "auto"@),
        ("normalization"@, "formD"@),
        ("devices"@, "off"@),
        ("compression"@, compression),
    ] + extra
}

pub open spec fn pair_views(v: Seq<(&str, &str)>) -> Seq<(Seq<char>, Seq<char>)> {
    v.map_values(|p: (&str, &str)| (p.0@, p.1@))
}

fn pair(k: &str, v: &str) -> (r: (String, String))
    ensures
        r.0@ == k@,
        r.1@ == v@,
{
    (k.to_string(), v.to_string())
}

/// The settings of a new pool: 4 KiB sectors (`ashift=12`), the
/// filesystem defaults, no mountpoint of its own. TRIM is not among them:
/// it is decided after creation from the kind of disk.
pub fn pool_settings(compression: &str, extra: &[(&str, &str)]) -> (r: PoolSettings)
    ensures
        prop_views(r.pool_properties@) == seq![("ashift"@, "12"@)],
        prop_views(r.fs_properties@) == fs_defaults(compression@, pair_views(extra@)),
        r.mountpoint@ == "none"@,
{
    let pool_properties = vec![pair("ashift", "12")];
    let mut fs: Vec<(String, String)> = vec![
        pair("acltype", "posixacl"),
        pair("relatime", "on"),
        pair("xattr", "sa"),
        pair("dnodesize", "auto"),
        pair("normalization", "formD"),
        pair("devices", "off"),
        pair("compression", compression),
    ];
    let ghost base = prop_views(fs@);
    assert(base =~= fs_defaults(compression@, seq![]).take(7));
    let mut i: usize = 0;
    while i < extra.len()
        invariant
            i <= extra.len(),
            base == fs_defaults(compression@, seq![]).take(7),
            prop_views(fs@) == base + pair_views(extra@).take(i as int),
        decreases extra.len() - i,
    {
        let ghost before = fs@;
        fs.push(pair(extra[i].0, extra[i].1));
        assert(prop_views(fs@) =~= prop_views(before).push((extra@[i as int].0@, extra@[i as int].1@)));
        assert(pair_views(extra@).take(i + 1) =~= pair_views(extra@).take(i as int).push(
            (extra@[i as int].0@, extra@[i as int].1@),
        ));
        i = i + 1;
    }
    assert(pair_views(extra@).take(extra.len() as int) =~= pair_views(extra@));
    assert(prop_views(pool_properties@) =~= seq![("ashift"@, "12"@)]);
    assert(fs_defaults(compression@, pair_views(extra@)) =~= fs_defaults(compression@, seq![]).take(7) + pair_views(extra@));
    PoolSettings { pool_properties, fs_properties: fs, mountpoint: "none".to_string() }
}

} // verus!
