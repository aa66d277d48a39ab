//! ZFSBootMenu: its configuration, its pacman hook, boot entries and the
//! properties it reads from the root dataset.

use vstd::prelude::*;

use crate::boot_environment::{be_root, BootEnvironment};
use crate::cmd::{arg_seq, check_exit, checked, unit_view, CmdOutput, CommandRunner};
use crate::run_log::{added, call, extends, lemma_added, ran_as, Run, RunLog};
use crate::download::file_name;
use crate::path::final_name;
use crate::text::{
    ascii_lower_seq, chars_eq, chars_of, chars_to_string, contains_seq, contains_str, extend_str,
    rfind, rfind_char, slice, to_ascii_lowercase,
};

verus! {

/// How the installed system builds its initramfs.
#[derive(Debug, Clone, Copy, PartialEq, Eq)]
pub enum InitSystem {
    Dracut,
    Mkinitcpio,
}

pub const HOSTID_VALUE: &'static str = "0x00bab10c";

/// A pacman hook that regenerates ZBM images whenever the kernel or ZFS
/// packages are updated, so the bootloader stays in sync.
pub const ZBM_PACMAN_HOOK: &'static str = "[Trigger]\nType = Path\nOperation = Install\nOperation = Upgrade\nTarget = usr/lib/modules/*/pkgbase\nTarget = usr/lib/modules/*/extramodules/zfs.ko*\n\n[Action]\nDescription = Regenerating ZFSBootMenu...\nWhen = PostTransaction\nExec = /usr/bin/generate-zbm\nDepends = zfsbootmenu\n";

/// The value of `org.zfsbootmenu:commandline`: hostid, zswap toggle, rw.
/// ZBM injects `root=` itself.
pub open spec fn zbm_cmdline(zswap_enabled: bool) -> Seq<char> {
    "spl.spl_hostid="@ + HOSTID_VALUE@ + if zswap_enabled {
        " zswap.enabled=1"@
    } else {
        " zswap.enabled=0"@
    } + " rw"@
}

/// Compose the value of `org.zfsbootmenu:commandline`.
pub fn build_zbm_cmdline(zswap_enabled: bool) -> (r: String)
    ensures
        r@ == zbm_cmdline(zswap_enabled),
{
    let mut v = chars_of("spl.spl_hostid=");
    extend_str(&mut v, HOSTID_VALUE);
    if zswap_enabled {
        extend_str(&mut v, " zswap.enabled=1");
    } else {
        extend_str(&mut v, " zswap.enabled=0");
    }
    extend_str(&mut v, " rw");
    chars_to_string(&v)
}

/// ZBM's `rootprefix` for an init system: the prefix prepended to the
/// dataset name on the kernel command line.
pub fn rootprefix_for(init_system: InitSystem) -> (r: &'static str)
    ensures
        r == match init_system {
            InitSystem::Dracut => "root=ZFS=",
            InitSystem::Mkinitcpio => "zfs=",
        },
{
    match init_system {
        InitSystem::Dracut => "root=ZFS=",
        InitSystem::Mkinitcpio => "zfs=",
    }
}

/// The settings written to `/etc/zfsbootmenu/config.yaml`.
#[derive(Debug, Clone, PartialEq, Eq)]
pub struct ZbmConfig {
    pub manage_images: bool,
    pub boot_mount_point: String,
    pub dracut_conf_dir: String,
    pub init_cpio_config: String,
    pub init_cpio: bool,
    pub components_enabled: bool,
    pub efi_image_dir: String,
    pub efi_versions: bool,
    pub efi_enabled: bool,
    pub kernel_command_line: String,
}

/// ZBM builds only an EFI bundle, with mkinitcpio when the system uses it.
pub fn zbm_config(init_system: InitSystem) -> (r: ZbmConfig)
    ensures
        r.manage_images,
        r.boot_mount_point@ == "/boot/efi"@,
        r.dracut_conf_dir@ == "/etc/zfsbootmenu/dracut.conf.d"@,
        r.init_cpio_config@ == "/etc/zfsbootmenu/mkinitcpio.conf"@,
        r.init_cpio == (init_system == InitSystem::Mkinitcpio),
        !r.components_enabled,
        r.efi_image_dir@ == "/boot/efi/EFI/zbm"@,
        !r.efi_versions,
        r.efi_enabled,
        r.kernel_command_line@ == "zbm.import_policy=hostid zbm.timeout=10 ro quiet loglevel=0"@,
{
    ZbmConfig {
        manage_images: true,
        boot_mount_point: "/boot/efi".to_string(),
        dracut_conf_dir: "/etc/zfsbootmenu/dracut.conf.d".to_string(),
        init_cpio_config: "/etc/zfsbootmenu/mkinitcpio.conf".to_string(),
        init_cpio: match init_system {
            InitSystem::Mkinitcpio => true,
            InitSystem::Dracut => false,
        },
        components_enabled: false,
        efi_image_dir: "/boot/efi/EFI/zbm".to_string(),
        efi_versions: false,
        efi_enabled: true,
        kernel_command_line: "zbm.import_policy=hostid zbm.timeout=10 ro quiet loglevel=0".to_string(),
    }
}

/// `efibootmgr -c -d <partition> -L <label> -l <loader>`.
pub open spec fn efi_entry_args(partition: Seq<char>, label: Seq<char>, loader: Seq<char>) -> Seq<
    Seq<char>,
> {
    seq!["-c"@, "-d"@, partition, "-L"@, label, "-l"@, loader]
}

/// The `efibootmgr` calls that create the missing boot entries, given what
/// `efibootmgr -v` listed: the main entry when no `ZFSBootMenu` entry
/// exists, then the backup entry when no `ZFSBootMenu (Backup)` does. The
/// command line is embedded in the EFI bundle, so no `-u` is passed.
pub open spec fn efi_entry_plan(existing: Seq<char>, partition: Seq<char>) -> Seq<Seq<Seq<char>>> {
    (if !contains_seq(existing, "ZFSBootMenu"@) {
        seq![efi_entry_args(partition, "ZFSBootMenu"@, "\\EFI\\zbm\\vmlinuz.EFI"@)]
    } else {
        seq![]
    }) + if !contains_seq(existing, "ZFSBootMenu (Backup)"@) {
        seq![efi_entry_args(partition, "ZFSBootMenu (Backup)"@, "\\EFI\\zbm\\vmlinuz-backup.EFI"@)]
    } else {
        seq![]
    }
}

fn entry_args(partition: &str, label: &str, loader: &str) -> (r: Vec<String>)
    ensures
        r@.map_values(|s: String| s@) == efi_entry_args(partition@, label@, loader@),
{
    let r = vec![
        "-c".to_string(),
        "-d".to_string(),
        partition.to_string(),
        "-L".to_string(),
        label.to_string(),
        "-l".to_string(),
        loader.to_string(),
    ];
    assert(r@.map_values(|s: String| s@) =~= efi_entry_args(partition@, label@, loader@));
    r
}

/// The boot entries to create; see [`efi_entry_plan`].
pub fn efi_entries_to_create(existing: &str, efi_partition: &str) -> (r: Vec<Vec<String>>)
    ensures
        r@.map_values(|a: Vec<String>| a@.map_values(|s: String| s@)) == efi_entry_plan(
            existing@,
            efi_partition@,
        ),
{
    let ev = chars_of(existing);
    let mut r: Vec<Vec<String>> = Vec::new();
    if !contains_str(&ev, "ZFSBootMenu") {
        r.push(entry_args(efi_partition, "ZFSBootMenu", "\\EFI\\zbm\\vmlinuz.EFI"));
    }
    let ghost first = r@;
    if !contains_str(&ev, "ZFSBootMenu (Backup)") {
        r.push(
            entry_args(efi_partition, "ZFSBootMenu (Backup)", "\\EFI\\zbm\\vmlinuz-backup.EFI"),
        );
    }
    assert(r@.map_values(|a: Vec<String>| a@.map_values(|s: String| s@)) =~= efi_entry_plan(
        existing@,
        efi_partition@,
    ));
    r
}

/// `efibootmgr -v`: the boot entries, with their loaders.
pub open spec fn efi_listing_args() -> Seq<Seq<char>> {
    seq!["-v"@]
}

/// The arguments that create the main ZFSBootMenu entry.
pub open spec fn main_entry_args(partition: Seq<char>) -> Seq<Seq<char>> {
    efi_entry_args(partition, "ZFSBootMenu"@, "\\EFI\\zbm\\vmlinuz.EFI"@)
}

/// The arguments that create the backup entry.
pub open spec fn backup_entry_args(partition: Seq<char>) -> Seq<Seq<char>> {
    efi_entry_args(partition, "ZFSBootMenu (Backup)"@, "\\EFI\\zbm\\vmlinuz-backup.EFI"@)
}

/// The runs of `create_efi_entries` and what they come to: the listing,
/// which must run; then, where it lists no `ZFSBootMenu` entry, the main
/// entry, which must be created; then, where it lists no backup entry, the
/// backup entry, of which only a failure to run at all counts. Nothing
/// else runs.
pub open spec fn efi_runs(partition: Seq<char>, made: Seq<Run>, res: Result<(), Seq<char>>) -> bool {
    &&& ran_as(made, 0, "efibootmgr"@, efi_listing_args())
    &&& match made[0].3 {
        Err(e) => made.len() == 1 && res == Err::<(), Seq<char>>(e@),
        Ok(out) => {
            let need_main = !contains_seq(out.stdout@, "ZFSBootMenu"@);
            let need_backup = !contains_seq(out.stdout@, "ZFSBootMenu (Backup)"@);
            let k: int = if need_main {
                2
            } else {
                1
            };
            let made_main = if need_main {
                checked(made[1].3, "efibootmgr create ZFSBootMenu entry"@)
            } else {
                Ok(())
            };
            &&& need_main ==> ran_as(made, 1, "efibootmgr"@, main_entry_args(partition))
            &&& match made_main {
                Err(m) => made.len() == k && res == Err::<(), Seq<char>>(m),
                Ok(()) => if need_backup {
                    &&& made.len() == k + 1
                    &&& ran_as(made, k, "efibootmgr"@, backup_entry_args(partition))
                    &&& res == match made[k].3 {
                        Err(e) => Err::<(), Seq<char>>(e@),
                        Ok(_) => Ok(()),
                    }
                } else {
                    made.len() == k && res == Ok::<(), Seq<char>>(())
                },
            }
        },
    }
}

/// Create the ZFSBootMenu boot entries `efibootmgr -v` does not list yet.
/// The main entry must be created; the backup entry failing is tolerated.
pub fn create_efi_entries<R: CommandRunner>(runner: &mut RunLog<R>, efi_partition: &str) -> (r:
    Result<(), String>)
    ensures
        extends(old(runner).runs(), final(runner).runs()),
        efi_runs(efi_partition@, added(old(runner).runs(), final(runner).runs()), unit_view(r)),
{
    let ghost start = runner.runs();
    let largs = ["-v"];
    assert(arg_seq(largs@) =~= efi_listing_args());
    let listed = runner.run("efibootmgr", &largs);
    let ghost mut made = seq![call("efibootmgr"@, efi_listing_args(), listed)];
    proof {
        lemma_added(start, made);
        assert(runner.runs() =~= start + made);
    }
    let existing = match listed {
        Ok(out) => out,
        Err(e) => {
            return Err(e);
        },
    };
    let ev = chars_of(existing.stdout.as_str());
    if !contains_str(&ev, "ZFSBootMenu") {
        let margs = ["-c", "-d", efi_partition, "-L", "ZFSBootMenu", "-l", "\\EFI\\zbm\\vmlinuz.EFI"];
        assert(arg_seq(margs@) =~= main_entry_args(efi_partition@));
        let created = runner.run("efibootmgr", &margs);
        proof {
            made = made.push(call("efibootmgr"@, main_entry_args(efi_partition@), created));
            lemma_added(start, made);
            assert(runner.runs() =~= start + made);
        }
        let output = match created {
            Ok(out) => out,
            Err(e) => {
                return Err(e);
            },
        };
        match check_exit(&output, "efibootmgr create ZFSBootMenu entry") {
            Ok(()) => {},
            Err(m) => {
                return Err(m);
            },
        }
    }
    if !contains_str(&ev, "ZFSBootMenu (Backup)") {
        let bargs = [
            "-c",
            "-d",
            efi_partition,
            "-L",
            "ZFSBootMenu (Backup)",
            "-l",
            "\\EFI\\zbm\\vmlinuz-backup.EFI",
        ];
        assert(arg_seq(bargs@) =~= backup_entry_args(efi_partition@));
        let backup = runner.run("efibootmgr", &bargs);
        proof {
            made = made.push(call("efibootmgr"@, backup_entry_args(efi_partition@), backup));
            lemma_added(start, made);
            assert(runner.runs() =~= start + made);
        }
        match backup {
            Ok(_) => {},
            Err(e) => {
                return Err(e);
            },
        }
        return Ok(());
    }
    Ok(())
}

/// What ZFSBootMenu is told through properties: on the boot environment's
/// root dataset, the kernel command line and the root prefix; on the pool,
/// optionally, `bootfs`.
#[derive(Debug, Clone)]
pub struct ZbmProperties {
    /// `pool/prefix/root`.
    pub dataset: String,
    /// `org.zfsbootmenu:commandline` and `org.zfsbootmenu:rootprefix`.
    pub dataset_properties: Vec<(String, String)>,
    /// The pool's `bootfs`, when it is to be set: the dataset ZBM boots
    /// after its countdown (without it ZBM waits for a choice).
    pub bootfs: Option<String>,
}

/// The properties for the environment `pool/prefix`.
pub fn zbm_properties(
    pool: &str,
    prefix: &str,
    init_system: InitSystem,
    zswap_enabled: bool,
    set_bootfs: bool,
) -> (r: ZbmProperties)
    ensures
        r.dataset@ == be_root(pool@, prefix@),
        r.dataset_properties@.len() == 2,
        r.dataset_properties@[0].0@ == "org.zfsbootmenu:commandline"@,
        r.dataset_properties@[0].1@ == zbm_cmdline(zswap_enabled),
        r.dataset_properties@[1].0@ == "org.zfsbootmenu:rootprefix"@,
        r.dataset_properties@[1].1@ == match init_system {
            InitSystem::Dracut => "root=ZFS="@,
            InitSystem::Mkinitcpio => "zfs="@,
        },
        match r.bootfs {
            Some(b) => set_bootfs && b@ == be_root(pool@, prefix@),
            None => !set_bootfs,
        },
{
    let root = BootEnvironment::new(pool, prefix).root_dataset();
    let props = vec![
        ("org.zfsbootmenu:commandline".to_string(), build_zbm_cmdline(zswap_enabled)),
        ("org.zfsbootmenu:rootprefix".to_string(), rootprefix_for(init_system).to_string()),
    ];
    let bootfs = if set_bootfs {
        Some(root.clone())
    } else {
        None
    };
    ZbmProperties { dataset: root, dataset_properties: props, bootfs }
}

/// Where `generate-zbm` puts its EFI image, relative to the target.
pub const ZBM_EFI_IMAGE: &'static str = "boot/efi/EFI/zbm/vmlinuz.EFI";

/// The firmware's fallback loader path, relative to the target: the image
/// is copied there so the machine boots even without a boot entry.
pub const FALLBACK_EFI_IMAGE: &'static str = "boot/efi/EFI/BOOT/BOOTX64.EFI";

/// `Path::extension` as its documentation states it: the part of the file
/// name after its last `.`; none without a file name, without a `.`, or
/// when the only `.` begins the name.
pub open spec fn extension_of(path: Seq<char>) -> Option<Seq<char>> {
    match final_name(path) {
        None => None,
        Some(n) => match rfind(n, '.') {
            None => None,
            Some(i) => if i == 0 {
                None
            } else {
                Some(n.skip(i + 1))
            },
        },
    }
}

/// Whether a file in `EFI/zbm` can stand in for the expected image: an
/// `.efi` file (in any case) that is not a backup.
pub open spec fn is_zbm_image(path: Seq<char>) -> bool {
    &&& extension_of(path) matches Some(e) && ascii_lower_seq(e) == "efi"@
    &&& !contains_seq(path, "backup"@)
}

fn zbm_image(path: &str) -> (r: bool)
    ensures
        r == is_zbm_image(path@),
{
    let name = match file_name(path) {
        Some(n) => chars_of(n.as_str()),
        None => return false,
    };
    let dot = match rfind_char(&name, '.') {
        Some(i) => i,
        None => return false,
    };
    if dot == 0 {
        return false;
    }
    let ext = to_ascii_lowercase(&slice(&name, dot + 1, name.len()));
    assert(name@.subrange(dot + 1, name@.len() as int) =~= name@.skip(dot + 1));
    chars_eq(&ext, &chars_of("efi")) && !contains_str(&chars_of(path), "backup")
}

/// When the image is not where `generate-zbm` usually puts it: the first
/// of the files found in `EFI/zbm` (`entries`, in the order listed) that
/// can stand in for it.
pub fn fallback_efi_image(entries: &Vec<String>) -> (r: Option<usize>)
    ensures
        match r {
            Some(i) => i < entries.len() && is_zbm_image(entries@[i as int]@) && forall|j: int|
                0 <= j < i ==> !is_zbm_image(#[trigger] entries@[j]@),
            None => forall|j: int| 0 <= j < entries.len() ==> !is_zbm_image(#[trigger] entries@[j]@),
        },
{
    let mut i: usize = 0;
    while i < entries.len()
        invariant
            i <= entries.len(),
            forall|j: int| 0 <= j < i ==> !is_zbm_image(#[trigger] entries@[j]@),
        decreases entries.len() - i,
    {
        if zbm_image(entries[i].as_str()) {
            return Some(i);
        }
        i = i + 1;
    }
    None
}

} // verus!
