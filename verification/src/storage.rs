//! The storage roles a device can be given, and why a device cannot take
//! one.

use vstd::prelude::*;

use crate::sort::string_views;
use crate::popup::{find, position_of};
use crate::text::{
    ascii_lower_seq, chars_eq, chars_of, chars_to_string, extend, extend_str, join, join_with,
    to_ascii_lowercase, views,
};

verus! {

/// How a storage role is named to the user.
pub open spec fn role_name(role: Seq<char>) -> Seq<char> {
    if role == "disk"@ {
        "Disk"@
    } else if role == "efi_partition"@ {
        "EFI boot partition"@
    } else if role == "zfs_partition"@ {
        "New ZFS pool"@
    } else if role == "swap_partition"@ {
        "Swap"@
    } else {
        "Existing pool"@
    }
}

fn named(role: &str, name: &str) -> (r: bool)
    ensures
        r == (role@ == name@),
{
    let a = crate::text::chars_of(role);
    let b = crate::text::chars_of(name);
    crate::text::chars_eq(&a, &b)
}

/// The label of a storage role; anything unknown is the existing pool.
pub fn role_label(role: &str) -> (r: &'static str)
    ensures
        r@ == role_name(role@),
{
    if named(role, "disk") {
        "Disk"
    } else if named(role, "efi_partition") {
        "EFI boot partition"
    } else if named(role, "zfs_partition") {
        "New ZFS pool"
    } else if named(role, "swap_partition") {
        "Swap"
    } else {
        "Existing pool"
    }
}

/// What is known of a device's present use.
#[derive(Debug, Clone)]
pub struct DeviceUsage {
    /// Mounted, or otherwise held, by the running system.
    pub in_use: bool,
    /// Where it is mounted.
    pub mountpoints: Vec<String>,
    /// The filesystem on it, as `lsblk` names it.
    pub filesystem: String,
    /// Its GPT partition type.
    pub partition_type: String,
}

/// Which other roles have this same device (compared as canonical paths),
/// each counted only while that role is in use: the EFI partition always,
/// the new pool's partition in new-pool mode, the swap partition when swap
/// goes on a partition.
#[derive(Debug, Clone, Copy)]
pub struct Assigned {
    pub efi_partition: bool,
    pub zfs_partition: bool,
    pub swap_partition: bool,
}

/// The GPT type of an EFI system partition.
pub const EFI_SYSTEM_PARTITION_TYPE: &'static str = "c12a7328-f81f-11d2-ba4b-00a0c93ec93b";

/// Why a device cannot take `role`, or nothing when it can: a device in use
/// (naming its mountpoints); for a partition role, another role holding
/// it; for the EFI role, anything but a FAT32 EFI system partition.
pub open spec fn unavailable_reason(u: DeviceUsage, role: Seq<char>, a: Assigned) -> Seq<char> {
    if u.in_use {
        if u.mountpoints@.len() == 0 {
            "Device is in use"@
        } else {
            "In use: "@ + join_with(string_views(u.mountpoints@), ", "@)
        }
    } else if role == "disk"@ {
        seq![]
    } else if role != "efi_partition"@ && a.efi_partition {
        "Assigned to "@ + role_name("efi_partition"@)
    } else if role != "zfs_partition"@ && a.zfs_partition {
        "Assigned to "@ + role_name("zfs_partition"@)
    } else if role != "swap_partition"@ && a.swap_partition {
        "Assigned to "@ + role_name("swap_partition"@)
    } else if role == "efi_partition"@ && (!(u.filesystem@ == "vfat"@ || u.filesystem@ == "fat32"@)
        || ascii_lower_seq(u.partition_type@) != ascii_lower_seq(EFI_SYSTEM_PARTITION_TYPE@)) {
        "Requires a FAT32 EFI system partition"@
    } else {
        seq![]
    }
}

fn assigned_to(role: &str) -> (r: String)
    ensures
        r@ == "Assigned to "@ + role_name(role@),
{
    let mut m = chars_of("Assigned to ");
    extend_str(&mut m, role_label(role));
    chars_to_string(&m)
}

/// Why the device cannot take `role`; empty when it can.
pub fn unavailable(usage: &DeviceUsage, role: &str, assigned: Assigned) -> (r: String)
    ensures
        r@ == unavailable_reason(*usage, role@, assigned),
{
    if usage.in_use {
        if usage.mountpoints.len() == 0 {
            return "Device is in use".to_string();
        }
        let mut parts: Vec<Vec<char>> = Vec::new();
        for i in 0..usage.mountpoints.len()
            invariant
                views(parts@) == string_views(usage.mountpoints@.take(i as int)),
        {
            parts.push(chars_of(usage.mountpoints[i].as_str()));
            assert(string_views(usage.mountpoints@.take(i + 1)) =~= string_views(
                usage.mountpoints@.take(i as int),
            ).push(usage.mountpoints@[i as int]@));
            assert(views(parts@) =~= views(parts@.drop_last()).push(parts@.last()@));
        }
        assert(usage.mountpoints@.take(usage.mountpoints.len() as int) =~= usage.mountpoints@);
        let mut m = chars_of("In use: ");
        let joined = join(&parts, &chars_of(", "));
        extend(&mut m, &joined);
        return chars_to_string(&m);
    }
    if named(role, "disk") {
        return String::new();
    }
    if !named(role, "efi_partition") && assigned.efi_partition {
        return assigned_to("efi_partition");
    }
    if !named(role, "zfs_partition") && assigned.zfs_partition {
        return assigned_to("zfs_partition");
    }
    if !named(role, "swap_partition") && assigned.swap_partition {
        return assigned_to("swap_partition");
    }
    if named(role, "efi_partition") {
        let fat = named(usage.filesystem.as_str(), "vfat") || named(usage.filesystem.as_str(), "fat32");
        let esp = chars_eq(
            &to_ascii_lowercase(&chars_of(usage.partition_type.as_str())),
            &to_ascii_lowercase(&chars_of(EFI_SYSTEM_PARTITION_TYPE)),
        );
        if !fat || !esp {
            return "Requires a FAT32 EFI system partition".to_string();
        }
    }
    String::new()
}


/// The heading of the device picker opened for a role.
pub open spec fn picker_heading(role: Seq<char>) -> Seq<char> {
    if role == "disk"@ {
        "Choose a disk"@
    } else if role == "efi_partition"@ {
        "Choose an EFI partition"@
    } else if role == "zfs_partition"@ {
        "Choose a ZFS partition"@
    } else if role == "swap_partition"@ {
        "Choose a swap partition"@
    } else {
        "Choose an existing pool"@
    }
}

/// What the device picker tells the user about choosing for a role.
pub open spec fn picker_note(role: Seq<char>) -> Seq<char> {
    if role == "disk"@ {
        "All partitions on this disk will be erased during installation."@
    } else if role == "efi_partition"@ {
        "Reuse an existing EFI filesystem. Bootloader files will be written here."@
    } else if role == "pool"@ {
        "Choose a pool for a new boot environment. Discovery does not import or modify pools."@
    } else {
        "The selected partition's contents will be replaced during installation."@
    }
}

/// The title of the device picker for `role`.
pub fn picker_title(role: &str) -> (r: &'static str)
    ensures
        r@ == picker_heading(role@),
{
    if named(role, "disk") {
        "Choose a disk"
    } else if named(role, "efi_partition") {
        "Choose an EFI partition"
    } else if named(role, "zfs_partition") {
        "Choose a ZFS partition"
    } else if named(role, "swap_partition") {
        "Choose a swap partition"
    } else {
        "Choose an existing pool"
    }
}

/// The explanation shown under the device picker's title for `role`.
pub fn picker_explanation(role: &str) -> (r: &'static str)
    ensures
        r@ == picker_note(role@),
{
    if named(role, "disk") {
        "All partitions on this disk will be erased during installation."
    } else if named(role, "efi_partition") {
        "Reuse an existing EFI filesystem. Bootloader files will be written here."
    } else if named(role, "pool") {
        "Choose a pool for a new boot environment. Discovery does not import or modify pools."
    } else {
        "The selected partition's contents will be replaced during installation."
    }
}

/// Where a move starts: the selected row, or just before the first row when
/// moving down (and the first row when moving up) if nothing is selected.
pub open spec fn move_start(rows: Seq<Seq<char>>, selected: Seq<char>, direction: int) -> int {
    match position_of(rows, selected) {
        Some(i) => i,
        None => if direction > 0 {
            -1
        } else {
            0
        },
    }
}

/// The row a move by `direction` lands on among the choosable rows, wrapping
/// around at both ends; none when no row can be chosen.
pub open spec fn move_target(rows: Seq<Seq<char>>, selected: Seq<char>, direction: int) -> Option<int> {
    if rows.len() == 0 {
        None
    } else {
        Some((move_start(rows, selected, direction) + direction) % (rows.len() as int))
    }
}

/// Moves the picker's selection by `direction` among `rows`, the keys of the
/// rows that can be chosen, from the row whose key is `selected`.
pub fn picker_move(rows: &Vec<String>, selected: &str, direction: i32) -> (r: Option<usize>)
    requires
        rows.len() <= i32::MAX,
        i32::MIN <= move_start(string_views(rows@), selected@, direction as int) + direction
            <= i32::MAX,
    ensures
        match r {
            Some(i) => move_target(string_views(rows@), selected@, direction as int) == Some(
                i as int,
            ) && i < rows.len(),
            None => move_target(string_views(rows@), selected@, direction as int) is None,
        },
{
    if rows.len() == 0 {
        return None;
    }
    let start: i64 = match find(rows, selected) {
        Some(i) => i as i64,
        None => if direction > 0 {
            -1
        } else {
            0
        },
    };
    let s: i64 = start + direction as i64;
    let n: u64 = rows.len() as u64;
    let ghost len: int = rows.len() as int;
    assert(string_views(rows@).len() == len);
    if s >= 0 {
        let m: u64 = (s as u64) % n;
        proof {
            vstd::arithmetic::div_mod::lemma_fundamental_div_mod(s as int, len);
        }
        Some(m as usize)
    } else {
        let a: u64 = (0 - s) as u64;
        let q: u64 = a / n;
        let m: u64 = a % n;
        proof {
            vstd::arithmetic::div_mod::lemma_fundamental_div_mod(a as int, len);
            assert(a as int == len * q + m);
            if m == 0 {
                assert(s as int == (0 - q) * len + 0) by (nonlinear_arith)
                    requires
                        a as int == len * q + m,
                        m == 0,
                        s as int == 0 - a,
                ;
                vstd::arithmetic::div_mod::lemma_fundamental_div_mod_converse(
                    s as int,
                    len,
                    0 - q,
                    0,
                );
            } else {
                assert(s as int == (0 - q - 1) * len + (len - m)) by (nonlinear_arith)
                    requires
                        a as int == len * q + m,
                        s as int == 0 - a,
                ;
                vstd::arithmetic::div_mod::lemma_fundamental_div_mod_converse(
                    s as int,
                    len,
                    0 - q - 1,
                    len - m,
                );
            }
        }
        if m == 0 {
            Some(0)
        } else {
            Some((n - m) as usize)
        }
    }
}

} // verus!
