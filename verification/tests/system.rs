use archinstall_zfs::alpm_space::{
    api_mount_points, free_space, space_needed, transaction_fits, TargetMounts, INSTALL_SLACK, no_space_message, resolve_name, unknown_names, NameLookup,
};
use archinstall_zfs::path::{is_at_or_under, is_safe_target, path_components};
use archinstall_zfs::target_dir::{not_empty, summarize_entries, unsafe_target};
use archinstall_zfs::zfs_cleanup::same_or_partition_of;

#[test]
fn a_transaction_larger_than_the_filesystem_is_refused() {
    let gib = |bytes: u64| bytes as f64 / (1024.0 * 1024.0 * 1024.0);
    let free = free_space(1000, 4096);
    assert!(!transaction_fits(free, 1u64 << 60));
    let needed = space_needed(1u64 << 60);
    let message = no_space_message(
        "/tmp/target",
        &format!("{:.1}", gib(needed)),
        &format!("{:.1}", gib(free)),
    );
    assert!(message.contains("Not enough space"), "{message}");
    assert!(message.contains("GiB is free"), "{message}");
}

#[test]
fn a_small_transaction_is_allowed() {
    assert!(transaction_fits(INSTALL_SLACK, 0));
    assert!(!transaction_fits(INSTALL_SLACK - 1, 0));
    assert_eq!(space_needed(1), INSTALL_SLACK + 1);
}

#[test]
fn api_filesystems_are_unmounted_in_reverse() {
    assert_eq!(api_mount_points(false), vec!["proc", "sys", "dev", "dev/pts", "dev/shm", "tmp", "run"]);
    assert_eq!(api_mount_points(true)[6], "sys/firmware/efi/efivars");
    let mounts = TargetMounts::new(vec!["/mnt/proc".to_string(), "/mnt/sys".to_string()]);
    assert_eq!(mounts.unmount_order(), vec!["/mnt/sys", "/mnt/proc"]);
}

#[test]
fn the_filesystem_root_is_never_a_target() {
    assert!(!is_safe_target("/"));
    assert!(!is_safe_target("//"));
    assert!(!is_safe_target("/./"));
    assert!(!is_safe_target("mnt"));
    assert!(is_safe_target("/mnt"));
    assert_eq!(unsafe_target("/"), "refusing to prepare / as an installation target");
}

#[test]
fn paths_compare_by_component() {
    assert!(is_at_or_under("/mnt/boot/efi", "/mnt"));
    assert!(is_at_or_under("/mnt/", "/mnt"));
    assert!(!is_at_or_under("/mnt-other", "/mnt"));
    assert!(!is_at_or_under("/", "/mnt"));
    assert_eq!(
        path_components("/a//b/./c/"),
        vec![vec!['/'], vec!['a'], vec!['b'], vec!['c']]
    );
}

#[test]
fn files_are_kept_and_named_in_the_refusal() {
    let names: Vec<String> = ["g", "b", "a", "f", "c", "e", "d"].iter().map(|s| s.to_string()).collect();
    let summary = summarize_entries(names);
    assert_eq!(summary, vec!["a", "b", "c", "d", "e", "and 2 more"]);
    assert_eq!(
        not_empty("/mnt", &vec!["notes.txt".to_string()]),
        "The target directory /mnt is not empty: notes.txt. Move or delete its contents, then start the installation again."
    );
    assert_eq!(summarize_entries(vec!["x".to_string()]), vec!["x"]);
}

#[test]
fn a_device_is_the_same_as_itself_by_components() {
    assert!(same_or_partition_of("/dev/sda", "/dev/sda", None));
    assert!(same_or_partition_of("/dev//sda/", "/dev/sda", None));
    assert!(!same_or_partition_of("/dev/sdb", "/dev/sda", None));
}

#[test]
fn a_partition_entry_sits_below_its_disk() {
    let link = "../../devices/pci0000:00/0000:00:17.0/ata1/host0/target0:0:0/0:0:0:0/block/sda/sda6";
    assert!(same_or_partition_of("/dev/sda6", "/dev/sda", Some(link)));
    assert!(!same_or_partition_of("/dev/sda6", "/dev/sdb", Some(link)));
    let disk = "../../devices/virtual/block/sda";
    assert!(!same_or_partition_of("/dev/sda", "/dev/sdb", Some(disk)));
    assert!(!same_or_partition_of("/dev/sda6", "/", Some(link)));
}

fn lookup(name: &str, has_package: bool, groups: &[&[&str]], provider: Option<&str>) -> NameLookup {
    NameLookup {
        name: name.to_string(),
        has_package,
        group_members: groups
            .iter()
            .map(|g| g.iter().map(|m| m.to_string()).collect())
            .collect(),
        provider: provider.map(str::to_string),
    }
}

#[test]
fn a_package_of_the_name_wins() {
    let l = lookup("vim", true, &[&["vim-group-member"]], Some("neovim"));
    assert_eq!(resolve_name(&l), Ok(vec!["vim".to_string()]));
}

#[test]
fn a_group_expands_to_its_members_once_each() {
    let l = lookup("plasma", false, &[&["kwin", "plasma-desktop"], &["kwin", "powerdevil"]], None);
    assert_eq!(
        resolve_name(&l),
        Ok(vec!["kwin".to_string(), "plasma-desktop".to_string(), "powerdevil".to_string()])
    );
}

#[test]
fn a_provider_answers_for_a_renamed_package() {
    let l = lookup("pipewire-media-session", false, &[&[]], Some("wireplumber"));
    assert_eq!(resolve_name(&l), Ok(vec!["wireplumber".to_string()]));
    let none = lookup("nosuch", false, &[], None);
    assert_eq!(resolve_name(&none), Err("package 'nosuch' not found in any repository".to_string()));
    let names = vec![
        lookup("a", true, &[], None),
        lookup("b", false, &[], None),
        lookup("c", false, &[&["x"]], None),
        lookup("d", false, &[], None),
    ];
    assert_eq!(unknown_names(&names), vec!["b".to_string(), "d".to_string()]);
}
