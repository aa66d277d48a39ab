//! Snapshot schedule for zrepl.

use vstd::prelude::*;

use crate::boot_environment::{be_base, BootEnvironment};
use crate::text::{chars_of, chars_to_string, extend_str};

verus! {

/// The zrepl configuration for a boot environment: one periodic snapshot
/// job over the environment's datasets, every 15 minutes, keeping
/// 4×15m, 24×1h and 3×1d of its own `zrepl_` snapshots.
pub open spec fn zrepl_config(base: Seq<char>) -> Seq<char> {
    "jobs:\n- name: snap\n  type: snap\n  filesystems:\n    \""@ + base
        + "<\": true\n  snapshotting:\n    type: periodic\n    interval: 15m\n    prefix: zrepl_\n  pruning:\n    keep:\n    - type: grid\n      grid: 4x15m | 24x1h | 3x1d\n      regex: \"^zrepl_\"\n"@
}

pub fn generate_zrepl_config(be: &BootEnvironment) -> (r: String)
    ensures
        r@ == zrepl_config(be_base(be.pool@, be.prefix@)),
{
    let base = be.base();
    let mut v = chars_of("jobs:\n- name: snap\n  type: snap\n  filesystems:\n    \"");
    extend_str(&mut v, base.as_str());
    extend_str(
        &mut v,
        "<\": true\n  snapshotting:\n    type: periodic\n    interval: 15m\n    prefix: zrepl_\n  pruning:\n    keep:\n    - type: grid\n      grid: 4x15m | 24x1h | 3x1d\n      regex: \"^zrepl_\"\n",
    );
    chars_to_string(&v)
}

} // verus!
