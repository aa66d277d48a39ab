use archinstall_zfs::conf::{
    conf_array_values, parallel_downloads_content, patch_conf_array, set_conf_line,
    set_conf_value, set_option, ConfError,
};

/// Read `key`'s array, let `edit` change it and write it back.
fn patch(input: &str, key: &str, edit: impl FnOnce(&mut Vec<String>)) -> Result<String, ConfError> {
    let mut values = conf_array_values(input, key)?;
    edit(&mut values);
    patch_conf_array(input, key, &values)
}

#[test]
fn test_patch_conf_array_adds_zfs() {
    let input = "MODULES=()\nHOOKS=(base udev autodetect modconf block filesystems fsck)\n";
    let result = patch(input, "HOOKS", |hooks| {
        if !hooks.contains(&"zfs".to_string()) {
            if let Some(pos) = hooks.iter().position(|h| h == "filesystems") {
                hooks.insert(pos, "zfs".to_string());
            }
        }
    })
    .unwrap();
    assert!(result.contains("zfs filesystems"));
}

#[test]
fn multi_line_array_is_rejected_instead_of_emptied() {
    let input = "MODULES=()\nHOOKS=(base udev autodetect\n       block filesystems fsck)\n";

    let err = patch(input, "HOOKS", |hooks| hooks.push("zfs".to_string()))
        .expect_err("a multi-line array must not be silently rewritten");

    let msg = err.message();
    assert!(msg.contains("HOOKS"), "error should name the key: {msg}");
    assert!(msg.contains("line 2"), "error should locate it: {msg}");
    // Writing values directly is refused the same way.
    assert_eq!(
        patch_conf_array(input, "HOOKS", &vec!["zfs".to_string()]).unwrap_err(),
        ConfError::UnclosedArray {
            key: "HOOKS".to_string(),
            line: 2
        }
    );
}

#[test]
fn repeated_assignment_patches_the_one_the_shell_would_use() {
    let input = "HOOKS=(base udev)\nHOOKS=(base udev block filesystems)\n";

    let result = patch(input, "HOOKS", |hooks| {
        let pos = hooks.iter().position(|h| h == "filesystems").unwrap();
        hooks.insert(pos, "zfs".to_string());
    })
    .unwrap();

    assert_eq!(
        result,
        "HOOKS=(base udev)\nHOOKS=(base udev block zfs filesystems)\n"
    );
}

#[test]
fn missing_array_is_appended() {
    let result = patch("COMPRESSION=\"cat\"\n", "FILES", |files| {
        files.push("/etc/zfs/zroot.key".to_string())
    })
    .unwrap();

    assert_eq!(result, "COMPRESSION=\"cat\"\nFILES=(/etc/zfs/zroot.key)\n");
}

#[test]
fn commented_out_assignment_is_left_alone() {
    let result = patch("#MODULES=(vfat)\n", "MODULES", |modules| {
        modules.push("zfs".to_string())
    })
    .unwrap();

    assert_eq!(result, "#MODULES=(vfat)\nMODULES=(zfs)\n");
}

#[test]
fn test_set_conf_value() {
    let input = "#COMPRESSION=\"zstd\"\n";
    let result = set_conf_value(input, "COMPRESSION", "cat");
    assert!(result.contains("COMPRESSION=\"cat\""));
    assert!(!result.contains("#COMPRESSION"));
}

#[test]
fn test_set_conf_line_activates_one_example_and_replaces_active_values() {
    let examples = "#COMPRESSION=\"zstd\"\n#COMPRESSION=\"xz\"\n#COMPRESSION_OPTIONS=()\n";
    assert_eq!(
        set_conf_line(examples, "COMPRESSION", "COMPRESSION=\"xz\""),
        "COMPRESSION=\"xz\"\n#COMPRESSION=\"xz\"\n#COMPRESSION_OPTIONS=()\n"
    );
    assert_eq!(
        set_conf_line(
            "#COMPRESSION=\"zstd\"\nCOMPRESSION=\"lz4\"\n",
            "COMPRESSION",
            "COMPRESSION=\"xz\""
        ),
        "#COMPRESSION=\"zstd\"\nCOMPRESSION=\"xz\"\n"
    );
    assert_eq!(
        set_conf_line(
            "HOOKS=(base)\n",
            "COMPRESSION_OPTIONS",
            "COMPRESSION_OPTIONS=(-9)"
        ),
        "HOOKS=(base)\nCOMPRESSION_OPTIONS=(-9)\n"
    );
}

#[test]
fn an_option_is_replaced_in_place() {
    let conf = "[options]\nArchitecture = x86_64\nParallelDownloads = 5\n\n[core]\n";

    let result = set_option(conf, "Architecture", "auto");

    assert!(result.contains("Architecture = auto"));
    assert!(!result.contains("Architecture = x86_64"));
    assert!(result.contains("ParallelDownloads = 5"), "others untouched");
}

#[test]
fn a_commented_option_is_taken_over() {
    let conf = "[options]\n#Architecture = auto\n\n[core]\n";

    let result = set_option(conf, "Architecture", "auto");

    assert_eq!(result.matches("Architecture").count(), 1);
    assert!(!result.contains('#'));
}

#[test]
fn a_missing_option_is_added_under_options() {
    let conf = "[options]\nHoldPkg = pacman\n\n[core]\nSigLevel = Required\n";

    let result = set_option(conf, "Architecture", "auto");

    let lines: Vec<&str> = result.lines().collect();
    assert_eq!(lines[0], "[options]");
    assert_eq!(lines[1], "Architecture = auto", "must land inside [options]");
}

#[test]
fn test_set_parallel_downloads() {
    let content = parallel_downloads_content("#ParallelDownloads = 5\n", 10);
    assert!(content.contains("ParallelDownloads = 10"));
    assert!(!content.contains("#ParallelDownloads"));
}

#[test]
fn setting_a_line_twice_is_setting_it_once() {
    let input = "#COMPRESSION=\"zstd\"\nHOOKS=(base)\n";
    let once = set_conf_line(input, "COMPRESSION", "COMPRESSION=\"xz\"");
    let twice = set_conf_line(&once, "COMPRESSION", "COMPRESSION=\"xz\"");
    assert_eq!(once, twice);
}

#[test]
fn the_array_read_is_the_last_assignment() {
    assert_eq!(
        conf_array_values("HOOKS=(a)\nHOOKS=(b c)\n", "HOOKS").unwrap(),
        vec!["b".to_string(), "c".to_string()]
    );
    assert!(conf_array_values("MODULES=()\n", "HOOKS").unwrap().is_empty());
}

#[test]
fn setting_a_value_keeps_every_other_line() {
    let content = "# comment\nA=1\n\n#KEY=\"old\"\n  B = 2\n";
    let out = set_conf_value(content, "KEY", "new");
    let before: Vec<&str> = content.lines().collect();
    let after: Vec<&str> = out.lines().collect();
    assert_eq!(after.len(), before.len());
    for (i, line) in before.iter().enumerate() {
        if i != 3 {
            assert_eq!(after[i], *line);
        }
    }
    assert_eq!(after[3], "KEY=\"new\"");
}

#[test]
fn an_option_edit_keeps_every_other_line_in_order() {
    let content = "# pacman.conf\n[options]\nHoldPkg = pacman\n\n[core]\nInclude = /etc/pacman.d/mirrorlist\n";
    let out = set_option(content, "ParallelDownloads", "5");
    let mut expected: Vec<&str> = content.lines().collect();
    expected.insert(2, "ParallelDownloads = 5");
    assert_eq!(out.lines().collect::<Vec<_>>(), expected);
    let again = set_option(&out, "ParallelDownloads", "8");
    let mut replaced = expected.clone();
    replaced[2] = "ParallelDownloads = 8";
    assert_eq!(again.lines().collect::<Vec<_>>(), replaced);
}

#[test]
fn setting_a_value_again_changes_nothing() {
    for content in [
        "#COMPRESSION=\"zstd\"\n#COMPRESSION=\"xz\"\nMODULES=()\n",
        "COMPRESSION=\"gzip\"\nX=1\nCOMPRESSION=\"lz4\"\n",
        "X=1\n",
    ] {
        let once = set_conf_line(content, "COMPRESSION", "COMPRESSION=\"xz\"");
        let twice = set_conf_line(&once, "COMPRESSION", "COMPRESSION=\"xz\"");
        assert_eq!(once, twice);
    }
}

#[test]
fn set_conf_line_leaves_one_assignment_of_the_key() {
    let input = "#KEYMAP=de\nKEYMAP=us\nFONT=lat2\nKEYMAP=fr\n";
    let out = set_conf_line(input, "KEYMAP", "KEYMAP=uk");
    let assigned: Vec<&str> = out.lines().filter(|l| l.starts_with("KEYMAP=")).collect();
    assert!(!assigned.is_empty());
    assert!(assigned.iter().all(|l| *l == "KEYMAP=uk"));
    assert!(out.lines().any(|l| l == "FONT=lat2"));
}
