use archinstall_zfs::boot_environment::BootEnvironment;
use archinstall_zfs::zfs::bootmenu::{
    build_zbm_cmdline, efi_entries_to_create, fallback_efi_image, rootprefix_for, zbm_config,
    zbm_properties, InitSystem, FALLBACK_EFI_IMAGE, ZBM_EFI_IMAGE,
};
use archinstall_zfs::zfs::cache::rewrite_cache_mountpoints;
use archinstall_zfs::zfs::dataset::{
    child_dataset_plan, create_dataset_args, default_datasets, set_property_args, DatasetConfig,
};
use archinstall_zfs::zfs::encryption::{
    dataset_encryption_properties, encryption_active, key_file_path,
};
use archinstall_zfs::zfs_setup::{
    reflector_finished, zfs_host_packages, zfs_preset_policy, ZFS_DISABLED_SERVICES,
    ZFS_PRESET_PATH, ZFS_SERVICES,
};
use archinstall_zfs::zfs::pool::pool_settings;
use archinstall_zfs::zrepl::generate_zrepl_config;

#[test]
fn test_build_zbm_cmdline() {
    assert_eq!(
        build_zbm_cmdline(false),
        "spl.spl_hostid=0x00bab10c zswap.enabled=0 rw"
    );
    assert_eq!(
        build_zbm_cmdline(true),
        "spl.spl_hostid=0x00bab10c zswap.enabled=1 rw"
    );
}

#[test]
fn test_rootprefix_for() {
    assert_eq!(rootprefix_for(InitSystem::Dracut), "root=ZFS=");
    assert_eq!(rootprefix_for(InitSystem::Mkinitcpio), "zfs=");
}

#[test]
fn the_boot_menu_config_follows_the_init_system() {
    let dracut = zbm_config(InitSystem::Dracut);
    assert!(dracut.manage_images);
    assert!(!dracut.init_cpio);
    assert!(dracut.kernel_command_line.contains("zbm.timeout=10"));
    assert!(!dracut.efi_versions);
    assert!(dracut.efi_enabled);
    assert!(zbm_config(InitSystem::Mkinitcpio).init_cpio);
}

#[test]
fn existing_boot_entries_are_not_created_again() {
    assert_eq!(efi_entries_to_create("BootCurrent: 0000\n", "/dev/sda1").len(), 2);
    let only_backup = efi_entries_to_create("Boot0001* ZFSBootMenu\tHD(...)\n", "/dev/sda1");
    assert_eq!(only_backup.len(), 1);
    assert!(only_backup[0].contains(&"ZFSBootMenu (Backup)".to_string()));
    assert!(efi_entries_to_create("ZFSBootMenu\nZFSBootMenu (Backup)\n", "/dev/sda1").is_empty());
}

#[test]
fn test_rewrite_cache_mountpoints() {
    let content = "zroot/arch0/root\t/mnt\ton\ton\ton\ton\toff\ton\toff\t-\t-\n\
                    zroot/arch0/data/home\t/mnt/home\ton\ton\ton\ton\toff\ton\toff\t-\t-\n\
                    zroot/arch0/data/root\t/mnt/root\ton\ton\ton\ton\toff\ton\toff\t-\t-\n\
                    zroot/arch0/vm\t/mnt/vm\ton\ton\ton\ton\toff\ton\toff\t-\t-";
    let result = rewrite_cache_mountpoints(content, "/mnt");
    let lines: Vec<&str> = result.lines().collect();
    assert_eq!(lines.len(), 4);
    assert!(lines[0].contains("\t/\t"));
    assert!(lines[1].contains("\t/home\t"));
    assert!(lines[2].contains("\t/root\t"));
    assert!(lines[3].contains("\t/vm\t"));
}

#[test]
fn test_rewrite_cache_mountpoints_preserves_other_fields() {
    let content = "zroot\tnone\ton\toff";
    let result = rewrite_cache_mountpoints(content, "/mnt");
    assert_eq!(result, "zroot\tnone\ton\toff");
}

#[test]
fn a_similar_prefix_is_not_the_mountpoint() {
    let result = rewrite_cache_mountpoints("p/x\t/mntx\ton", "/mnt");
    assert_eq!(result, "p/x\t/mntx\ton");
}

#[test]
fn test_default_datasets() {
    let ds = default_datasets();
    assert_eq!(ds.len(), 4);
    assert_eq!(ds[0].name, "root");
    assert_eq!(ds[1].name, "data/home");
    assert_eq!(ds[2].name, "data/root");
    assert_eq!(ds[3].name, "vm");
}

#[test]
fn dataset_arguments_carry_every_property() {
    let props = vec![
        ("mountpoint".to_string(), "/".to_string()),
        ("canmount".to_string(), "noauto".to_string()),
    ];
    assert_eq!(
        create_dataset_args("pool/arch0/root", &props),
        vec!["create", "-o", "mountpoint=/", "-o", "canmount=noauto", "pool/arch0/root"]
    );
    assert_eq!(
        set_property_args("pool/arch0/root", "org.zfsbootmenu:commandline", "rw"),
        vec!["set", "org.zfsbootmenu:commandline=rw", "pool/arch0/root"]
    );
}

#[test]
fn parents_are_planned_before_their_children() {
    let datasets = vec![
        DatasetConfig {
            name: "data/home".to_string(),
            properties: vec![("mountpoint".to_string(), "/home".to_string())],
        },
        DatasetConfig {
            name: "root".to_string(),
            properties: vec![("mountpoint".to_string(), "/".to_string())],
        },
        DatasetConfig {
            name: "data/root".to_string(),
            properties: vec![("mountpoint".to_string(), "/root".to_string())],
        },
    ];
    let plan = child_dataset_plan("pool", "arch0", &datasets);
    let names: Vec<&str> = plan.iter().map(|(n, _)| n.as_str()).collect();
    assert_eq!(
        names,
        vec!["pool/arch0/root", "pool/arch0/data", "pool/arch0/data/home", "pool/arch0/data/root"]
    );
    assert_eq!(plan[1].1, vec![("mountpoint".to_string(), "none".to_string())]);
}

#[test]
fn encryption_test_pool_encryption_properties() {
    let props = archinstall_zfs::zfs::encryption::pool_encryption_properties("/etc/zfs/zroot.key");
    assert_eq!(props.len(), 3);
    assert_eq!(props[0], ("encryption", "aes-256-gcm".to_string()));
    assert_eq!(props[1], ("keyformat", "passphrase".to_string()));
    assert!(props[2].1.contains("/etc/zfs/zroot.key"));
}

#[test]
fn zfs_keyfile_test_pool_encryption_properties() {
    let props = archinstall_zfs::zfs_keyfile::pool_encryption_properties("/etc/zfs/zroot.key");
    assert_eq!(props.len(), 3);
    assert_eq!(props[0], ("encryption", "aes-256-gcm".to_string()));
    assert_eq!(props[1], ("keyformat", "passphrase".to_string()));
    assert!(props[2].1.contains("/etc/zfs/zroot.key"));
}

#[test]
fn the_key_lives_under_the_target() {
    assert_eq!(key_file_path("/mnt"), "/mnt/etc/zfs/zroot.key");
    assert_eq!(
        dataset_encryption_properties("/etc/zfs/zroot.key")[2],
        ("keylocation", "file:///etc/zfs/zroot.key".to_string())
    );
}

#[test]
fn zfs_preset_policy_matches_the_service_lists() {
    for unit in ZFS_DISABLED_SERVICES {
        assert!(
            !ZFS_SERVICES.contains(&unit),
            "{unit} is both enabled and disabled"
        );
    }

    let policy = zfs_preset_policy();
    let directives: Vec<&str> = policy.lines().filter(|l| !l.starts_with('#')).collect();
    assert_eq!(
        directives.len(),
        ZFS_SERVICES.len() + ZFS_DISABLED_SERVICES.len()
    );
    for unit in ZFS_DISABLED_SERVICES {
        assert!(directives.contains(&format!("disable {unit}").as_str()));
    }
    for unit in ZFS_SERVICES {
        assert!(directives.contains(&format!("enable {unit}").as_str()));
    }
}

#[test]
fn zfs_preset_policy_overrides_the_package_defaults() {
    let policy = zfs_preset_policy();
    assert!(policy.contains("disable zfs-mount.service\n"));
    assert!(policy.contains("enable zfs-import-scan.service\n"));
    assert!(ZFS_PRESET_PATH.starts_with("etc/systemd/system-preset/00-"));
}

#[test]
fn host_packages_depend_on_the_kernel_build() {
    assert_eq!(zfs_host_packages("linux-lts", true), vec!["zfs-utils", "zfs-linux-lts"]);
    assert_eq!(
        zfs_host_packages("linux", false),
        vec!["zfs-dkms", "zfs-utils", "linux-headers"]
    );
}

#[test]
fn reflector_is_done_when_it_stopped() {
    assert!(reflector_finished("dead\n"));
    assert!(reflector_finished("  Exited"));
    assert!(reflector_finished(""));
    assert!(!reflector_finished("running"));
}

#[test]
fn test_generate_zrepl_config() {
    let config = generate_zrepl_config(&BootEnvironment::new("mypool", "arch0"));
    assert!(config.contains("mypool/arch0<"));
    assert!(config.contains("15m"));
    assert!(config.contains("zrepl_"));
    assert!(config.contains("grid"));
}

#[test]
fn a_boot_environment_names_its_datasets() {
    let be = BootEnvironment::new("zroot", "arch0");
    assert_eq!(be.base(), "zroot/arch0");
    assert_eq!(be.root_dataset(), "zroot/arch0/root");
}

#[test]
fn a_pool_is_encrypted_unless_its_property_is_off_or_missing() {
    assert!(encryption_active("aes-256-gcm"));
    assert!(encryption_active("on"));
    assert!(!encryption_active("off"));
    assert!(!encryption_active(""));
}

#[test]
fn pools_are_created_with_the_filesystem_defaults() {
    let s = pool_settings("zstd", &[("encryption", "aes-256-gcm"), ("keyformat", "passphrase")]);
    let kv = |v: &[(String, String)]| {
        v.iter().map(|(k, v)| format!("{k}={v}")).collect::<Vec<_>>()
    };
    assert_eq!(kv(&s.pool_properties), vec!["ashift=12"]);
    assert_eq!(
        kv(&s.fs_properties),
        vec![
            "acltype=posixacl",
            "relatime=on",
            "xattr=sa",
            "dnodesize=auto",
            "normalization=formD",
            "devices=off",
            "compression=zstd",
            "encryption=aes-256-gcm",
            "keyformat=passphrase",
        ]
    );
    assert_eq!(s.mountpoint, "none");
    assert!(!kv(&s.fs_properties).iter().any(|p| p.starts_with("autotrim")));
}

#[test]
fn boot_menu_properties_go_on_the_root_dataset() {
    let p = zbm_properties("zroot", "arch0", InitSystem::Mkinitcpio, false, true);
    assert_eq!(p.dataset, "zroot/arch0/root");
    assert_eq!(
        p.dataset_properties,
        vec![
            ("org.zfsbootmenu:commandline".to_string(), build_zbm_cmdline(false)),
            ("org.zfsbootmenu:rootprefix".to_string(), "zfs=".to_string()),
        ]
    );
    assert_eq!(p.bootfs.as_deref(), Some("zroot/arch0/root"));
    let q = zbm_properties("tank", "be", InitSystem::Dracut, true, false);
    assert_eq!(q.dataset_properties[1].1, "root=ZFS=");
    assert_eq!(q.bootfs, None);
}

#[test]
fn a_stand_in_image_is_an_efi_file_that_is_no_backup() {
    let entries = vec![
        "/mnt/boot/efi/EFI/zbm/config.yaml".to_string(),
        "/mnt/boot/efi/EFI/zbm/vmlinuz-backup.EFI".to_string(),
        "/mnt/boot/efi/EFI/zbm/.efi".to_string(),
        "/mnt/boot/efi/EFI/zbm/vmlinuz-bootmenu.Efi".to_string(),
        "/mnt/boot/efi/EFI/zbm/other.efi".to_string(),
    ];
    assert_eq!(fallback_efi_image(&entries), Some(3));
    assert_eq!(fallback_efi_image(&entries[..3].to_vec()), None);
    assert_eq!(fallback_efi_image(&vec![]), None);
    assert_eq!(ZBM_EFI_IMAGE, "boot/efi/EFI/zbm/vmlinuz.EFI");
    assert_eq!(FALLBACK_EFI_IMAGE, "boot/efi/EFI/BOOT/BOOTX64.EFI");
}
