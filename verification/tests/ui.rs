use archinstall_zfs::config_file::{
    default_path, entered_path, export_message, import_failure_message, import_message,
    ConfigFileStatus, ENTER_LOAD_PATH, ENTER_SAVE_PATH,
};
use archinstall_zfs::format::{format_duration, truncate_str};
use archinstall_zfs::preview::{packages, Size};
use archinstall_zfs::controllers::packages::PackageSelection;
use archinstall_zfs::storage::{
    picker_explanation, picker_move, picker_title, role_label, unavailable, Assigned, DeviceUsage,
};
use archinstall_zfs::wizard::{fuzzy_filter, is_password_key, password_strength, rank_matches, rate_password};

#[test]
fn durations_read_in_the_largest_unit() {
    assert_eq!(format_duration(42), "42s");
    assert_eq!(format_duration(127), "2m07s");
    assert_eq!(format_duration(3600 + 5 * 60 + 9), "1h05m");
    assert_eq!(format_duration(0), "0s");
    assert_eq!(format_duration(60), "1m00s");
}

#[test]
fn long_text_is_cut_at_a_character() {
    assert_eq!(truncate_str("hello", 10), "hello");
    assert_eq!(truncate_str("hello world", 5), "hello");
    assert_eq!(truncate_str("héllo", 2), "hé");
    // Five characters but six bytes: nothing to cut at five.
    assert_eq!(truncate_str("héllo", 5), "héllo");
}

#[test]
fn preview_sizes_are_checked() {
    assert_eq!(Size::parse("1280x800").unwrap(), Size(1280, 800));
    assert_eq!(Size::parse("1280").unwrap_err(), "expected WIDTHxHEIGHT");
    assert_eq!(Size::parse("ax800").unwrap_err(), "invalid width");
    assert_eq!(Size::parse("1280x").unwrap_err(), "invalid height");
    assert_eq!(
        Size::parse("100x100").unwrap_err(),
        "preview size must be between 640x480 and 7680x4320"
    );
    assert_eq!(Size::parse("+640x480").unwrap(), Size(640, 480));
    assert_eq!(Size::parse("99999999999x480").unwrap_err(), "invalid width");
}

#[test]
fn preview_package_search_filters_by_name() {
    let found = packages("o", false);
    let names: Vec<&str> = found.iter().map(|p| p.name.as_str()).collect();
    assert_eq!(names, vec!["firefox", "htop", "visual-studio-code-bin"]);
    assert!(found.iter().all(|p| p.repo == "extra"));
    let aur = packages("git", true);
    assert_eq!(aur.len(), 1);
    assert_eq!(aur[0].repo, "aur");
    assert_eq!(aur[0].description, "Distributed version control");
}

#[test]
fn storage_roles_have_labels() {
    assert_eq!(role_label("disk"), "Disk");
    assert_eq!(role_label("efi_partition"), "EFI boot partition");
    assert_eq!(role_label("zfs_partition"), "New ZFS pool");
    assert_eq!(role_label("swap_partition"), "Swap");
    assert_eq!(role_label("anything"), "Existing pool");
}

#[test]
fn the_configuration_is_saved_in_the_live_home() {
    assert_eq!(default_path(), "/root/azfs-config.json");
}

#[test]
fn an_empty_filter_keeps_every_option() {
    let items = vec!["us".to_string(), "de".to_string()];
    assert_eq!(fuzzy_filter(&items, ""), items);
}

#[test]
fn fuzzy_matches_come_best_first() {
    let items = vec![
        "de-latin1".to_string(),
        "us".to_string(),
        "fr".to_string(),
        "dvorak".to_string(),
    ];
    let filtered = fuzzy_filter(&items, "de");
    assert_eq!(filtered[0], "de-latin1");
    assert!(!filtered.contains(&"us".to_string()));
    assert!(!filtered.contains(&"fr".to_string()));
}

#[test]
fn ranking_is_stable_among_equal_scores() {
    let items = vec!["a".to_string(), "b".to_string(), "c".to_string(), "d".to_string()];
    let scores = vec![Some(1), None, Some(5), Some(1)];
    assert_eq!(rank_matches(&items, &scores), vec!["c", "a", "d"]);
}

#[test]
fn password_ratings_have_words_and_hints() {
    assert_eq!(password_strength("").score, -1);
    let weak = password_strength("password");
    assert!(weak.score <= 1);
    assert!(!weak.label.is_empty());
    assert!(!weak.hint.is_empty());
    let r = rate_password(4, None, "centuries");
    assert_eq!(r.label, "Very strong");
    assert_eq!(r.hint, "~centuries to crack");
    let r = rate_password(2, Some("Add another word".to_string()), "3 hours");
    assert_eq!(r.label, "Fair");
    assert_eq!(r.hint, "Add another word");
    assert!(is_password_key("root_password"));
    assert!(!is_password_key("hostname"));
}

#[test]
fn the_last_save_or_load_is_remembered() {
    let mut status = ConfigFileStatus::new();
    assert_eq!(status.last_result(), "");
    let shown = status.remember(ENTER_SAVE_PATH.to_string());
    assert_eq!(shown, "Enter a path to save the configuration to.");
    assert_eq!(status.last_result(), shown);
    status.remember(ENTER_LOAD_PATH.to_string());
    assert_eq!(status.last_result(), "Enter the path of a configuration to load.");
}

#[test]
fn a_typed_path_is_trimmed_and_blank_means_none() {
    assert_eq!(entered_path("  /root/a.json \n").as_deref(), Some("/root/a.json"));
    assert_eq!(entered_path("   "), None);
    assert_eq!(entered_path(""), None);
}

#[test]
fn save_and_load_messages_name_the_files() {
    let both = Ok(vec!["/root/a.json".to_string(), "/root/a.secrets.json".to_string()]);
    assert_eq!(
        export_message("/root/a.json", &both),
        "Saved /root/a.json and its passwords in a.secrets.json"
    );
    assert_eq!(export_message("/root/a.json", &Ok(vec!["/root/a.json".to_string()])), "Saved /root/a.json");
    assert_eq!(
        export_message("/ro/a.json", &Err("read-only file system".to_string())),
        "Could not save /ro/a.json: read-only file system"
    );
    assert_eq!(import_message("/root/a.json", true, true), "Loaded /root/a.json with its passwords");
    assert_eq!(import_message("/root/a.json", false, true), "Loaded /root/a.json");
    assert_eq!(
        import_message("/root/a.json", false, false),
        "Loaded /root/a.json. It carries no passwords; set them before installing."
    );
    assert_eq!(import_failure_message("/x", "no such file"), "Could not load /x: no such file");
}

fn usage(in_use: bool, mounts: &[&str], fs: &str, ptype: &str) -> DeviceUsage {
    DeviceUsage {
        in_use,
        mountpoints: mounts.iter().map(|m| m.to_string()).collect(),
        filesystem: fs.into(),
        partition_type: ptype.into(),
    }
}

const NONE: Assigned = Assigned {
    efi_partition: false,
    zfs_partition: false,
    swap_partition: false,
};

#[test]
fn a_device_in_use_names_its_mountpoints() {
    assert_eq!(unavailable(&usage(true, &[], "", ""), "disk", NONE), "Device is in use");
    assert_eq!(
        unavailable(&usage(true, &["/", "/home"], "", ""), "zfs_partition", NONE),
        "In use: /, /home"
    );
    assert_eq!(unavailable(&usage(false, &[], "", ""), "disk", NONE), "");
}

#[test]
fn a_partition_held_by_another_role_or_not_an_esp_is_unavailable() {
    let taken = Assigned {
        efi_partition: true,
        ..NONE
    };
    assert_eq!(
        unavailable(&usage(false, &[], "ext4", ""), "zfs_partition", taken),
        "Assigned to EFI boot partition"
    );
    let esp = "C12A7328-F81F-11D2-BA4B-00A0C93EC93B";
    assert_eq!(unavailable(&usage(false, &[], "vfat", esp), "efi_partition", taken), "");
    assert_eq!(
        unavailable(&usage(false, &[], "ext4", esp), "efi_partition", NONE),
        "Requires a FAT32 EFI system partition"
    );
    assert_eq!(
        unavailable(&usage(false, &[], "fat32", "0fc63daf-8483-4772-8e79-3d69d8477de4"), "efi_partition", NONE),
        "Requires a FAT32 EFI system partition"
    );
    assert_eq!(unavailable(&usage(false, &[], "", ""), "swap_partition", NONE), "");
}

#[test]
fn an_empty_password_is_not_rated_and_others_are_within_the_scale() {
    let empty = password_strength("");
    assert_eq!((empty.score, empty.label.as_str(), empty.hint.as_str()), (-1, "", ""));
    let r = password_strength("correct horse battery staple");
    assert!((0..=4).contains(&r.score));
    assert!(!r.label.is_empty() && !r.hint.is_empty());
}

#[test]
fn picker_titles_and_explanations_follow_the_role() {
    assert_eq!(picker_title("disk"), "Choose a disk");
    assert_eq!(picker_title("efi_partition"), "Choose an EFI partition");
    assert_eq!(picker_title("swap_partition"), "Choose a swap partition");
    assert_eq!(picker_title("pool"), "Choose an existing pool");
    assert_eq!(
        picker_explanation("disk"),
        "All partitions on this disk will be erased during installation."
    );
    assert_eq!(
        picker_explanation("pool"),
        "Choose a pool for a new boot environment. Discovery does not import or modify pools."
    );
    assert_eq!(
        picker_explanation("zfs_partition"),
        "The selected partition's contents will be replaced during installation."
    );
}

#[test]
fn picker_moves_wrap_around_the_choosable_rows() {
    let rows: Vec<String> = vec!["a".into(), "b".into(), "c".into()];
    assert_eq!(picker_move(&rows, "b", 1), Some(2));
    assert_eq!(picker_move(&rows, "c", 1), Some(0));
    assert_eq!(picker_move(&rows, "a", -1), Some(2));
    // Nothing selected: down lands on the first row, up on the last.
    assert_eq!(picker_move(&rows, "", 1), Some(0));
    assert_eq!(picker_move(&rows, "", -1), Some(2));
    assert_eq!(picker_move(&rows, "a", -4), Some(2));
    assert_eq!(picker_move(&Vec::new(), "a", 1), None);
}

#[test]
fn repository_packages_are_shown_before_aur_packages() {
    let mut sel = PackageSelection { repo: Vec::new(), aur: Vec::new() };
    assert_eq!(sel.add("yay".into(), "aur"), Some(0));
    assert_eq!(sel.add("htop".into(), "extra"), Some(0));
    assert_eq!(sel.add("vim".into(), "extra"), Some(1));
    assert_eq!(sel.add("paru".into(), "aur"), Some(3));
    assert_eq!(sel.add("yay".into(), "extra"), None);
    assert_eq!(sel.repo, vec!["htop".to_string(), "vim".to_string()]);
    assert_eq!(sel.aur, vec!["yay".to_string(), "paru".to_string()]);
    // Row 2 is the first AUR package.
    assert!(sel.remove(2));
    assert_eq!(sel.aur, vec!["paru".to_string()]);
    assert!(sel.remove(0));
    assert_eq!(sel.repo, vec!["vim".to_string()]);
    assert!(!sel.remove(5));
    // Removing where a package was just added gives back the selection.
    let at = sel.add("git".into(), "core").unwrap();
    assert!(sel.remove(at));
    assert_eq!(sel.repo, vec!["vim".to_string()]);
    assert_eq!(sel.aur, vec!["paru".to_string()]);
}
