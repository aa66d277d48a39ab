use archinstall_zfs::config_items::{
    ci, ci_opt, ci_toggle, mark_section_boundaries, next_selectable_index, review_items,
    review_step_rows, section_header, sep, zfs_items, desktop_items, ChoiceFacts, ConfigItem,
    DesktopProfileFacts, DesktopStepFacts, InstallMode, ItemType, ZfsStepFacts,
};
use archinstall_zfs::gpu::GfxDriver;
use archinstall_zfs::popup::{kernel_option, popup_for, OptionalPackages, PopupFacts, PopupKind};

fn typed(label: &str, item_type: ItemType) -> ConfigItem {
    ConfigItem {
        key: label.into(),
        label: label.into(),
        item_type,
        ..Default::default()
    }
}

#[test]
fn next_selectable_skips_non_interactive_types() {
    let items = vec![
        typed("A", ItemType::SectionHeader),
        typed("B", ItemType::RadioOption),
        typed("C", ItemType::Separator),
        typed("D", ItemType::Text),
    ];

    assert_eq!(next_selectable_index(&items, -1, 1), 1);
    assert_eq!(next_selectable_index(&items, 1, 1), 3);
    assert_eq!(next_selectable_index(&items, 3, -1), 1);
}

#[test]
fn next_selectable_wraps_around() {
    let items = vec![typed("a", ItemType::Text), typed("b", ItemType::Toggle)];
    assert_eq!(next_selectable_index(&items, 1, 1), 0);
    assert_eq!(next_selectable_index(&items, 0, -1), 1);
}

#[test]
fn next_selectable_returns_minus_one_for_empty() {
    let items: Vec<ConfigItem> = vec![];
    assert_eq!(next_selectable_index(&items, -1, 1), -1);
    assert_eq!(next_selectable_index(&items, 5, -1), -1);
}

#[test]
fn next_selectable_returns_current_when_no_interactive_items() {
    let items = vec![typed("", ItemType::Separator), typed("", ItemType::Readonly)];
    assert_eq!(next_selectable_index(&items, 0, 1), 0);
}

#[test]
fn a_storage_row_without_a_device_is_skipped() {
    let items = vec![
        typed("", ItemType::Storage),
        typed("/dev/sda", ItemType::Storage),
        typed("w", ItemType::Warning),
    ];
    assert_eq!(next_selectable_index(&items, 1, 1), 1);
    assert_eq!(next_selectable_index(&items, 2, -1), 1);
    // Large steps wrap without overflow.
    assert_eq!(next_selectable_index(&items, i32::MAX, i32::MAX), 1);
}

#[test]
fn mark_boundaries_simple_section() {
    let mut items = vec![
        section_header("Pool"),
        ci("a", "A", "", ItemType::Text),
        ci("b", "B", "", ItemType::Text),
        ci("c", "C", "", ItemType::Text),
    ];
    mark_section_boundaries(&mut items);

    assert!(!items[0].is_first_in_section);
    assert!(!items[0].is_last_in_section);
    assert!(items[1].is_first_in_section);
    assert!(!items[1].is_last_in_section);
    assert!(!items[2].is_first_in_section);
    assert!(!items[2].is_last_in_section);
    assert!(!items[3].is_first_in_section);
    assert!(items[3].is_last_in_section);
}

#[test]
fn mark_boundaries_two_adjacent_sections() {
    let mut items = vec![
        section_header("Pool"),
        ci("a", "A", "", ItemType::Text),
        section_header("Compression"),
        ci("b", "B", "", ItemType::RadioOption),
        ci("c", "C", "", ItemType::RadioOption),
    ];
    mark_section_boundaries(&mut items);

    assert!(items[1].is_first_in_section);
    assert!(items[1].is_last_in_section);
    assert!(items[3].is_first_in_section);
    assert!(!items[3].is_last_in_section);
    assert!(!items[4].is_first_in_section);
    assert!(items[4].is_last_in_section);
}

#[test]
fn mark_boundaries_radio_followed_by_text_in_same_section() {
    let mut items = vec![
        section_header("Encryption"),
        ci("none", "None", "selected", ItemType::RadioOption),
        ci("pool", "Pool", "", ItemType::RadioOption),
        ci("dataset", "Dataset", "", ItemType::RadioOption),
        ci("password", "Password", "Set", ItemType::Password),
    ];
    mark_section_boundaries(&mut items);

    assert!(items[1].is_first_in_section);
    assert!(!items[1].is_last_in_section);
    assert!(!items[2].is_first_in_section);
    assert!(!items[2].is_last_in_section);
    assert!(!items[3].is_first_in_section);
    assert!(!items[3].is_last_in_section);
    assert!(!items[4].is_first_in_section);
    assert!(items[4].is_last_in_section);
}

#[test]
fn mark_boundaries_separator_breaks_section() {
    let mut items = vec![
        ci("a", "A", "", ItemType::Text),
        sep(),
        ci("b", "B", "", ItemType::Text),
    ];
    mark_section_boundaries(&mut items);

    assert!(items[0].is_first_in_section);
    assert!(items[0].is_last_in_section);
    assert!(items[2].is_first_in_section);
    assert!(items[2].is_last_in_section);
}

#[test]
fn mark_boundaries_action_does_not_join_section() {
    let mut items = vec![
        ci("a", "A", "", ItemType::Text),
        ConfigItem {
            key: "install".into(),
            label: "Install".into(),
            item_type: ItemType::Action,
            ..Default::default()
        },
    ];
    mark_section_boundaries(&mut items);
    assert!(items[0].is_first_in_section);
    assert!(items[0].is_last_in_section);
}

#[test]
fn unset_and_disabled_values_read_muted() {
    let unset = ci_opt("hostname", "Hostname", None, ItemType::Text);
    assert_eq!(unset.value, "Not set");
    assert!(unset.is_empty);
    let set = ci_opt("hostname", "Hostname", Some("arch"), ItemType::Text);
    assert_eq!(set.value, "arch");
    assert!(!set.is_empty);
    let off = ci_toggle("ntp", "NTP", false);
    assert_eq!(off.value, "Disabled");
    assert!(off.is_empty);
    assert_eq!(off.item_type, ItemType::Toggle);
    assert_eq!(ci_toggle("ntp", "NTP", true).value, "Enabled");
}

fn row(key: &str, label: &str, value: &str, item_type: ItemType) -> ConfigItem {
    ci(key, label, value, item_type)
}

#[test]
fn the_review_collapses_radio_groups_and_hides_the_passphrase() {
    let mut option_a = row("o1", "Fast", "", ItemType::RadioOption);
    option_a.detail_model = "model".into();
    let mut option_b = row("o2", "Small", "selected", ItemType::RadioOption);
    option_b.detail_size = "8G".into();
    let step = vec![
        section_header("Group"),
        row("", "Mode", "", ItemType::RadioHeader),
        option_a,
        row("", "Sub", "", ItemType::RadioSubheader),
        option_b,
        row("storage:disk", "Disk", "sda", ItemType::Storage),
        row("encryption_password", "Passphrase", "hunter22", ItemType::InlinePassword),
        row("", "Empty group", "", ItemType::RadioHeader),
        row("hostname", "Hostname", "box", ItemType::Text),
    ];
    let rows = review_step_rows(&step, true);
    let shown: Vec<(&str, &str, &str)> = rows
        .iter()
        .map(|r| (r.key.as_str(), r.label.as_str(), r.value.as_str()))
        .collect();
    assert_eq!(
        shown,
        vec![
            ("", "Mode", "Small"),
            ("encryption_password", "Passphrase", "Set"),
            ("", "Empty group", "Not set"),
            ("hostname", "Hostname", "box"),
        ]
    );
    assert!(rows.iter().all(|r| r.item_type == ItemType::Readonly));
    assert_eq!(rows[0].detail_size, "8G");
    assert!(rows[2].is_empty);
    assert_eq!(review_step_rows(&step, false)[1].value, "Required");
}

#[test]
fn the_review_page_lists_problems_storage_and_each_step() {
    let errors = vec!["Choose a disk".to_string()];
    let disk = vec![
        section_header("Storage assignments"),
        row("storage:disk", "Disk to erase", "/dev/sda", ItemType::Storage),
    ];
    let swap = row("storage:swap_partition", "Swap partition", "/dev/sda3", ItemType::Storage);
    let steps = vec![
        vec![row("pool_name", "New pool name", "zroot", ItemType::InlineText)],
        vec![],
        vec![],
        vec![row("zrepl", "zrepl (snapshots)", "Disabled", ItemType::Toggle)],
    ];
    let page = review_items(&errors, &disk, &swap, true, Some("zroot"), "arch0", &steps, false);
    let shown: Vec<(&str, &str, &str)> = page
        .iter()
        .map(|r| (r.key.as_str(), r.label.as_str(), r.value.as_str()))
        .collect();
    assert_eq!(
        shown,
        vec![
            ("", "Complete setup before installing", ""),
            ("", "", "Choose a disk"),
            ("edit:1", "Storage changes during installation", ""),
            ("", "Disk to erase", "/dev/sda"),
            ("", "Swap partition", "/dev/sda3"),
            ("", "Boot environment", "zroot/arch0"),
            ("edit:2", "ZFS", ""),
            ("pool_name", "New pool name", "zroot"),
            ("edit:3", "System", ""),
            ("edit:4", "Users", ""),
            ("edit:5", "Desktop", ""),
            ("zrepl", "zrepl (snapshots)", "Disabled"),
        ]
    );
    let quiet = review_items(&vec![], &disk, &swap, false, None, "arch0", &steps, false);
    assert_eq!(quiet[0].label, "Storage changes during installation");
    assert_eq!(quiet[2].value, "?/arch0");
}

fn choice(key: &str, labels: &[&str], index: usize) -> ChoiceFacts {
    ChoiceFacts {
        key: key.into(),
        labels: labels.iter().map(|l| l.to_string()).collect(),
        index,
    }
}

fn zfs_facts(mode: InstallMode) -> ZfsStepFacts {
    ZfsStepFacts {
        mode: Some(mode),
        pool_name: Some("zroot".into()),
        dataset_prefix: "arch0".into(),
        encryption: choice("encryption", &["None", "Pool", "Dataset"], 1),
        encrypted: true,
        encryption_password_set: false,
        swap: choice("swap_mode", &["None", "ZRAM", "Partition"], 2),
        swap_label: "Swap partition".into(),
        alongside_swap_bytes: 8 * 1073741824,
        swap_on_partition: true,
        swap_partition_size: Some("8G".into()),
        compression: choice("compression", &["lz4", "zstd"], 0),
        init_system: choice("init_system", &["dracut", "mkinitcpio"], 1),
    }
}

#[test]
fn the_zfs_step_rows_follow_the_installation_mode() {
    let swap_row = row("storage:swap_partition", "Swap partition", "Choose a device", ItemType::Storage);
    let rows = zfs_items(&zfs_facts(InstallMode::FullDisk), swap_row);
    let shown: Vec<(&str, &str, &str)> = rows
        .iter()
        .map(|r| (r.key.as_str(), r.label.as_str(), r.value.as_str()))
        .collect();
    assert_eq!(
        shown,
        vec![
            ("", "Pool and boot environment", ""),
            ("pool_name", "New pool name", "zroot"),
            ("dataset_prefix", "Boot environment", "arch0"),
            ("", "Data protection", ""),
            ("encryption", "Encryption", "Pool"),
            ("encryption_password", "Encryption passphrase", "Required"),
            ("", "Swap", ""),
            ("swap_mode", "Swap method", "Partition"),
            ("swap_partition_size", "Swap size", "8G"),
            ("compression", "Compression", "lz4"),
            ("init_system", "Initramfs generator", "mkinitcpio"),
        ]
    );
    assert_eq!(rows[2].description, "Create zroot/arch0");
    assert!(rows[9].advanced && rows[10].advanced && !rows[4].advanced);
    assert_eq!(rows[4].choices, vec!["None", "Pool", "Dataset"]);
    assert_eq!(rows[4].choice_index, 1);

    let swap_row = row("storage:swap_partition", "Swap partition", "Choose a device", ItemType::Storage);
    let existing = zfs_items(&zfs_facts(InstallMode::ExistingPool), swap_row);
    assert_eq!(existing[1].key, "storage:pool");
    assert_eq!(existing[4].value, "Unlock encrypted pool");
    assert_eq!(existing[8].key, "storage:swap_partition");

    let swap_row = row("storage:swap_partition", "Swap partition", "Choose a device", ItemType::Storage);
    let alongside = zfs_items(&zfs_facts(InstallMode::Alongside), swap_row);
    assert_eq!(alongside[6].value, "Swap partition — 8 GiB");
    assert_eq!(alongside[6].item_type, ItemType::Readonly);
    assert_eq!(alongside.len(), 9);
}

fn desktop(profile: Option<DesktopProfileFacts>, driver: Option<GfxDriver>) -> DesktopStepFacts {
    DesktopStepFacts {
        profile_name: Some("Sway".into()),
        desktop: profile,
        audio: choice("audio", &["PipeWire", "PulseAudio"], 0),
        supports_gfx_driver: true,
        wayland_only: true,
        gfx_driver: driver,
        bluetooth: false,
        additional_packages: vec!["vim".into()],
        aur_packages: vec!["yay".into()],
        extra_services: vec![],
        zrepl: true,
    }
}

#[test]
fn the_desktop_step_shows_the_profile_and_warns_of_nvidia_on_wayland() {
    let profile = DesktopProfileFacts {
        optional_total: 4,
        optional_chosen: 1,
        dm_override: None,
        dm_default: Some("greetd".into()),
        needs_seat_access: true,
        seat_access: choice("seat_access", &["seatd", "polkit"], 1),
    };
    let rows = desktop_items(&desktop(Some(profile), Some(GfxDriver::NvidiaOpen)));
    let shown: Vec<(&str, &str, &str)> = rows
        .iter()
        .map(|r| (r.key.as_str(), r.label.as_str(), r.value.as_str()))
        .collect();
    assert_eq!(
        shown,
        vec![
            ("", "Environment", ""),
            ("profile", "Profile", "Sway"),
            ("", "Profile configuration", ""),
            ("optional_packages", "Optional packages", "1 of 4"),
            ("display_manager", "Display manager", "greetd (default)"),
            ("seat_access", "Seat access", "polkit"),
            ("", "Sound", ""),
            ("audio", "Audio", "PipeWire"),
            ("", "Hardware", ""),
            ("gpu_driver", "GPU driver", "NVIDIA (open kernel module, Turing+)"),
            ("", "", "Proprietary NVIDIA driver is known-problematic on Wayland-only compositors."),
            ("bluetooth", "Bluetooth", "Disabled"),
            ("", "Software", ""),
            ("packages", "Extra packages", "vim, yay"),
            ("extra_services", "Extra services", "None"),
            ("zrepl", "zrepl (snapshots)", "Enabled"),
        ]
    );
    assert!(rows[14].is_empty && rows[11].is_empty && !rows[15].is_empty);

    let console = desktop_items(&DesktopStepFacts {
        profile_name: None,
        supports_gfx_driver: false,
        ..desktop(None, None)
    });
    assert_eq!(console[1].value, "Console only");
    assert!(console[1].is_empty);
    assert_eq!(console.len(), 10);
}

fn names(v: &[&str]) -> Vec<String> {
    v.iter().map(|s| s.to_string()).collect()
}

fn popup_facts() -> PopupFacts {
    PopupFacts {
        kernel_options: names(&["linux  ✓", "linux-lts  ✓"]),
        kernel_names: names(&["linux", "linux-lts"]),
        current_kernel: "linux-lts".into(),
        profile_ids: names(&["kde", "sway"]),
        profile_names: names(&["KDE Plasma", "Sway"]),
        selected_profile: Some("sway".into()),
        optional_packages: Some(OptionalPackages {
            profile_name: "Sway".into(),
            packages: names(&["waybar", "foot"]),
            descriptions: names(&["bar", "terminal"]),
            chosen: names(&["foot"]),
        }),
        suggested_driver: Some(GfxDriver::Intel),
        gfx_driver: Some(GfxDriver::Amd),
        display_managers: names(&["GDM", "SDDM", "greetd"]),
        dm_default: Some(2),
        dm_override: None,
        profile_selected: true,
        timezone_regions: names(&["Europe", "America"]),
        locales: names(&["C.UTF-8", "en_US.UTF-8"]),
        locale: Some("en_US.UTF-8".into()),
        keymaps: names(&["us", "de"]),
        keyboard_layout: "fr".into(),
        pool_name: None,
        dataset_prefix: "arch0".into(),
        hostname: Some("box".into()),
        swap_partition_size: None,
        parallel_downloads: 5,
    }
}

#[test]
fn each_row_opens_its_popup_with_the_current_option() {
    let f = popup_facts();
    let kernel = popup_for("kernel", &f).unwrap();
    assert_eq!((kernel.kind, kernel.key.as_str(), kernel.current), (PopupKind::Select, "kernel_select", 1));
    let profile = popup_for("profile", &f).unwrap();
    assert_eq!(profile.options, names(&["None", "KDE Plasma", "Sway"]));
    assert_eq!(profile.current, 2);
    let optional = popup_for("optional_packages", &f).unwrap();
    assert_eq!(optional.title, "Optional packages — Sway");
    assert_eq!(optional.checked, vec![false, true]);
    let gpu = popup_for("gpu_driver", &f).unwrap();
    assert_eq!(gpu.options[0], "None — skip GPU driver installation");
    assert_eq!(gpu.options[3], "Intel (open-source)  ✦ suggested");
    assert_eq!(gpu.current, 2);
    let dm = popup_for("display_manager", &f).unwrap();
    assert_eq!(dm.options, names(&["GDM", "SDDM", "greetd  ✦ default"]));
    assert_eq!(dm.current, 2);
    let locale = popup_for("locale", &f).unwrap();
    assert!(locale.filterable);
    assert_eq!(locale.current, 1);
    assert_eq!(popup_for("keyboard", &f).unwrap().current, 0);
    let pool = popup_for("pool_name", &f).unwrap();
    assert_eq!((pool.kind, pool.title.as_str(), pool.value.as_str()), (PopupKind::TextInput, "Pool name", ""));
    assert_eq!(popup_for("parallel_downloads", &f).unwrap().value, "5");
    let secret = popup_for("root_password", &f).unwrap();
    assert!(secret.password && secret.value.is_empty());
    assert_eq!(popup_for("users", &f).unwrap().kind, PopupKind::Users);
    assert!(popup_for("bluetooth", &f).is_none());
    let none = PopupFacts {
        optional_packages: None,
        profile_selected: false,
        ..popup_facts()
    };
    assert!(popup_for("optional_packages", &none).is_none());
    assert_eq!(popup_for("display_manager", &none).unwrap().current, -1);
}

#[test]
fn kernel_option_labels_compatible_and_incompatible_kernels() {
    assert_eq!(
        kernel_option("linux-lts", Some("6.6.30"), Some("precompiled")),
        "\u{2713} linux-lts (6.6.30) [precompiled]"
    );
    assert_eq!(
        kernel_option("linux", None, Some("dkms")),
        "\u{2713} linux (?) [dkms]"
    );
    assert_eq!(
        kernel_option("linux-zen", Some("6.12.1"), None),
        "\u{2717} linux-zen (6.12.1) [incompatible]"
    );
}
