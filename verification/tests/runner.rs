use archinstall_zfs::run_log::RunLog;
use std::cell::RefCell;
use std::collections::VecDeque;

use archinstall_zfs::apt::run_debootstrap;
use archinstall_zfs::cmd::{
    check_exit, chroot, chroot_checked, shell_quote, CmdOutput, CommandRunner,
};
use archinstall_zfs::installed_shell::{
    pool_already_imported, session_outcome, shell_unit_name, stop_verdict, InstalledSystem,
    PrepareError, ShellSession,
};
use archinstall_zfs::pacman::{init_keyring, trust_repository_keys, with_repositories, Repository, Signatures};
use archinstall_zfs::target_dir::{mounts_to_unmount, unmount_under};
use archinstall_zfs::zfs::bootmenu::create_efi_entries;
use archinstall_zfs::zfs::cache::create_hostid;
use archinstall_zfs::zfs::dataset::{
    create_base_dataset, create_child_datasets, create_dataset, dataset_exists,
    mount_datasets_ordered, set_property, umount_dataset, DatasetConfig,
};
use archinstall_zfs::zfs_setup::{
    check_zfs_module, check_zfs_utils, increase_cowspace, load_zfs_module, mirrorlist_stale,
    refresh_mirrors_if_stale, reflector_wait, stop_reflector, ReflectorWait, REFLECTOR_WAIT_POLLS,
};
use archinstall_zfs::zfs_cleanup::{
    export_leftover_pool, imported_pool_devices, leftover_pool_verdict, parse_pool_devices,
    release_leftover_pool, OwnedMounts,
};

#[derive(Debug, Clone, Default)]
struct CannedResponse {
    stdout: String,
    stderr: String,
    exit_code: i32,
}

#[derive(Debug, Clone)]
struct RecordedCall {
    program: String,
    args: Vec<String>,
}

struct RecordingRunner {
    calls: RefCell<Vec<RecordedCall>>,
    responses: RefCell<VecDeque<CannedResponse>>,
}

impl RecordingRunner {
    fn new(responses: Vec<CannedResponse>) -> Self {
        Self {
            calls: RefCell::new(Vec::new()),
            responses: RefCell::new(VecDeque::from(responses)),
        }
    }

    fn calls(&self) -> Vec<RecordedCall> {
        self.calls.borrow().clone()
    }
}

impl CommandRunner for RecordingRunner {
    fn run(&self, program: &str, args: &[&str]) -> Result<CmdOutput, String> {
        self.calls.borrow_mut().push(RecordedCall {
            program: program.to_string(),
            args: args.iter().map(|s| s.to_string()).collect(),
        });
        let resp = self.responses.borrow_mut().pop_front().unwrap_or_default();
        Ok(CmdOutput {
            stdout: resp.stdout,
            stderr: resp.stderr,
            exit_code: resp.exit_code,
        })
    }

    fn run_with_stdin(&self, program: &str, args: &[&str], _stdin: &[u8]) -> Result<CmdOutput, String> {
        self.run(program, args)
    }
}

fn ok(s: &str) -> CannedResponse {
    CannedResponse {
        stdout: s.into(),
        ..Default::default()
    }
}

fn fail(s: &str) -> CannedResponse {
    CannedResponse {
        stderr: s.into(),
        exit_code: 1,
        ..Default::default()
    }
}

#[test]
fn test_cmd_output_success() {
    let output = CmdOutput {
        stdout: "ok".into(),
        stderr: String::new(),
        exit_code: 0,
    };
    assert!(output.success());
}

#[test]
fn test_cmd_output_failure() {
    let output = CmdOutput {
        stdout: String::new(),
        stderr: "error".into(),
        exit_code: 1,
    };
    assert!(!output.success());
}

#[test]
fn test_recording_runner() {
    let runner = RecordingRunner::new(vec![CannedResponse {
        stdout: "hello\n".into(),
        stderr: String::new(),
        exit_code: 0,
    }]);

    let result = runner.run("echo", &["hello"]).unwrap();
    assert_eq!(result.stdout, "hello\n");
    assert!(result.success());

    let calls = runner.calls();
    assert_eq!(calls.len(), 1);
    assert_eq!(calls[0].program, "echo");
    assert_eq!(calls[0].args, vec!["hello"]);
}

#[test]
fn chroot_checked_passes_the_argv_through_and_reports_failures_by_context() {
    let runner = RecordingRunner::new(vec![
        CannedResponse::default(),
        CannedResponse {
            exit_code: 1,
            stderr: "no such preset".into(),
            ..Default::default()
        },
    ]);

    chroot_checked(&mut RunLog::new(&runner), "/mnt", "locale-gen", &[], "locale-gen").unwrap();
    let err = chroot_checked(
        &mut RunLog::new(&runner),
        "/mnt",
        "mkinitcpio",
        &["-p", "linux"],
        "mkinitcpio -p linux",
    )
    .unwrap_err();

    let calls = runner.calls();
    assert_eq!(calls[0].program, "arch-chroot");
    assert_eq!(calls[0].args, ["/mnt", "locale-gen"]);
    assert_eq!(calls[1].args, ["/mnt", "mkinitcpio", "-p", "linux"]);
    assert!(err.contains("mkinitcpio -p linux"), "{err}");
    assert!(err.contains("no such preset"), "{err}");
}

#[test]
fn chroot_runs_the_command_through_bash() {
    let runner = RecordingRunner::new(vec![]);
    chroot(&mut RunLog::new(&runner), "/mnt", "echo hi").unwrap();
    let calls = runner.calls();
    assert_eq!(calls[0].program, "arch-chroot");
    assert_eq!(calls[0].args, ["/mnt", "bash", "-c", "echo hi"]);
}

#[test]
fn test_check_exit_ok() {
    let output = CmdOutput {
        stdout: String::new(),
        stderr: String::new(),
        exit_code: 0,
    };
    assert!(check_exit(&output, "test").is_ok());
}

#[test]
fn test_check_exit_fail() {
    let output = CmdOutput {
        stdout: String::new(),
        stderr: "bad thing".into(),
        exit_code: 1,
    };
    let msg = check_exit(&output, "test command").unwrap_err();
    assert!(msg.contains("test command"));
    assert!(msg.contains("bad thing"));
    assert_eq!(msg, "test command: exit code 1, stderr: bad thing");
}

#[test]
fn shell_quoting_leaves_safe_words_alone() {
    assert_eq!(shell_quote(""), "''");
    assert_eq!(shell_quote("/dev/sda1"), "/dev/sda1");
    assert_eq!(shell_quote("it's"), "'it'\\''s'");
    assert_eq!(shell_quote("a b"), "'a b'");
}

fn mounts() -> OwnedMounts {
    OwnedMounts {
        root: "/run/azfs-test".into(),
        root_dataset: "pool/arch0/root".into(),
        pool_to_export: Some("pool".into()),
    }
}

#[test]
fn busy_mount_preserves_export_for_retry() {
    let runner = RecordingRunner::new(vec![ok("pool/arch0/root\n"), fail("busy")]);
    let mut mounts = mounts();
    assert!(mounts.cleanup(&mut RunLog::new(&runner)).is_err());
    assert_eq!(mounts.pool_to_export.as_deref(), Some("pool"));
    assert!(runner.calls().iter().all(|c| c.program != "zpool"));
}

#[test]
fn foreign_root_is_never_unmounted() {
    let runner = RecordingRunner::new(vec![ok("other/root\n")]);
    assert!(mounts().cleanup(&mut RunLog::new(&runner)).is_err());
    assert_eq!(runner.calls().len(), 1);
}

#[test]
fn no_global_or_forced_cleanup_and_success_is_retryable() {
    let runner = RecordingRunner::new(vec![
        ok("pool/arch0/root\n"),
        ok(""),
        ok(""),
        CannedResponse {
            stdout: "".into(),
            stderr: "".into(),
            exit_code: 1,
        },
    ]);
    let mut mounts = mounts();
    mounts.cleanup(&mut RunLog::new(&runner)).unwrap();
    mounts.cleanup(&mut RunLog::new(&runner)).unwrap();
    assert!(mounts.pool_to_export.is_none());
    assert_eq!(
        runner
            .calls()
            .iter()
            .filter(|c| c.program == "zpool")
            .count(),
        1
    );
    assert!(runner
        .calls()
        .iter()
        .all(|c| !c.args.iter().any(|a| a == "-a" || a == "-f")));
}

#[test]
fn the_filesystem_root_is_never_cleaned_up() {
    let runner = RecordingRunner::new(vec![]);
    for root in ["/", "//", "/.", "relative/dir"] {
        let mut m = mounts();
        m.root = root.to_string();
        assert_eq!(m.cleanup(&mut RunLog::new(&runner)).unwrap_err(), "Refusing cleanup of an unsafe root");
    }
    assert!(runner.calls().is_empty());
}

#[test]
fn vdev_paths_are_read_from_the_listing() {
    let listing = "tank\n\tmirror-0\n\t\t/nonexistent/disk-a\n\t\t/nonexistent/disk-b\n";
    assert_eq!(
        parse_pool_devices(listing),
        vec!["/nonexistent/disk-a".to_string(), "/nonexistent/disk-b".to_string()]
    );
}

#[test]
fn a_pool_on_the_target_partition_is_exported() {
    let runner = RecordingRunner::new(vec![CannedResponse::default()]);
    let devices = parse_pool_devices("zroot\n\t/nonexistent/part6\n");
    let on_target: Vec<bool> = devices.iter().map(|d| d == "/nonexistent/part6").collect();
    leftover_pool_verdict("zroot", &devices, &on_target).unwrap();
    export_leftover_pool(&mut RunLog::new(&runner), "zroot").unwrap();
    let last = runner.calls().pop().unwrap();
    assert_eq!(last.args, vec!["export", "zroot"]);
}

#[test]
fn a_pool_elsewhere_stops_the_installation() {
    let devices = parse_pool_devices("zroot\n\t/nonexistent/other\n");
    let on_target: Vec<bool> = devices.iter().map(|d| d == "/nonexistent/part6").collect();
    let error = leftover_pool_verdict("zroot", &devices, &on_target).unwrap_err();
    assert!(error.contains("/nonexistent/other"), "{error}");
    assert_eq!(
        error,
        "A pool named zroot is already imported from /nonexistent/other, which this installation does not use. Choose another pool name or export that pool first."
    );
}

#[test]
fn a_pool_without_devices_is_not_a_leftover() {
    assert!(leftover_pool_verdict("zroot", &vec![], &vec![]).is_err());
}

#[test]
fn a_refused_export_is_forced() {
    let runner = RecordingRunner::new(vec![fail("busy"), CannedResponse::default()]);
    export_leftover_pool(&mut RunLog::new(&runner), "zroot").unwrap();
    let calls = runner.calls();
    assert_eq!(calls[1].args, vec!["export", "-f", "zroot"]);
}

#[test]
fn mounts_under_the_target_are_unmounted_deepest_first() {
    let root = "/tmp/azfs-target";
    let runner = RecordingRunner::new(vec![
        CannedResponse {
            stdout: format!(
                "/ /dev/root\n{root} pool/root\n{root}/boot/efi /dev/sda1\n{root}-other /dev/sdb1\n"
            ),
            ..Default::default()
        },
        CannedResponse::default(),
        CannedResponse::default(),
    ]);
    unmount_under(&mut RunLog::new(&runner), root).unwrap();
    let umounts: Vec<Vec<String>> = runner
        .calls()
        .into_iter()
        .filter(|call| call.program == "umount")
        .map(|call| call.args)
        .collect();
    assert_eq!(
        umounts,
        vec![
            vec!["--recursive".to_string(), format!("{root}/boot/efi")],
            vec!["--recursive".to_string(), root.to_string()],
        ]
    );
}

#[test]
fn an_already_unmounted_filesystem_is_no_failure() {
    let runner = RecordingRunner::new(vec![ok("/t/a x\n"), fail("umount: /t/a: not mounted.")]);
    unmount_under(&mut RunLog::new(&runner), "/t").unwrap();
    let runner = RecordingRunner::new(vec![ok("/t/a x\n"), fail("target is busy")]);
    assert!(unmount_under(&mut RunLog::new(&runner), "/t").is_err());
}

#[test]
fn equal_depths_keep_the_listing_order() {
    assert_eq!(
        mounts_to_unmount("/t/b x\n/t/a y\n/t/ccc z\n/other q\nnospace\n", "/t/"),
        vec!["/t/ccc", "/t/b", "/t/a"]
    );
}

#[test]
fn test_create_dataset_with_properties() {
    let runner = RecordingRunner::new(vec![CannedResponse::default()]);
    create_dataset(
        &mut RunLog::new(&runner),
        "pool/arch0/root",
        &vec![
            ("mountpoint".to_string(), "/".to_string()),
            ("canmount".to_string(), "noauto".to_string()),
        ],
    )
    .unwrap();

    let calls = runner.calls();
    let args = &calls[0].args;
    assert!(args.contains(&"create".to_string()));
    assert!(args.contains(&"pool/arch0/root".to_string()));
    assert!(args.contains(&"mountpoint=/".to_string()));
    assert!(args.contains(&"canmount=noauto".to_string()));
}

#[test]
fn test_create_child_datasets_sorts_by_depth() {
    let datasets = vec![
        DatasetConfig {
            name: "data/home".to_string(),
            properties: vec![("mountpoint".to_string(), "/home".to_string())],
        },
        DatasetConfig {
            name: "root".to_string(),
            properties: vec![
                ("mountpoint".to_string(), "/".to_string()),
                ("canmount".to_string(), "noauto".to_string()),
            ],
        },
        DatasetConfig {
            name: "data/root".to_string(),
            properties: vec![("mountpoint".to_string(), "/root".to_string())],
        },
    ];

    let responses: Vec<CannedResponse> = (0..4).map(|_| CannedResponse::default()).collect();
    let runner = RecordingRunner::new(responses);
    create_child_datasets(&mut RunLog::new(&runner), "pool", "arch0", &datasets).unwrap();

    let calls = runner.calls();
    assert_eq!(calls.len(), 4);
    assert!(calls[0].args.contains(&"pool/arch0/root".to_string()));
    assert!(calls[1].args.contains(&"pool/arch0/data".to_string()));
}

#[test]
fn an_existing_base_dataset_is_refused() {
    let runner = RecordingRunner::new(vec![ok("pool/arch0\t...\n")]);
    let err = create_base_dataset(&mut RunLog::new(&runner), "pool", "arch0", &vec![]).unwrap_err();
    assert_eq!(
        err,
        "Dataset 'pool/arch0' already exists. Choose a different dataset prefix or use Existing Pool mode."
    );
    assert_eq!(runner.calls().len(), 1);
}

#[test]
fn test_create_efi_entries_no_u_flag() {
    let runner = RecordingRunner::new(vec![
        CannedResponse {
            stdout: "BootCurrent: 0000\n".into(),
            ..Default::default()
        },
        CannedResponse::default(),
        CannedResponse::default(),
    ]);

    create_efi_entries(&mut RunLog::new(&runner), "/dev/sda1").unwrap();

    let calls = runner.calls();
    let main_call = &calls[1];
    assert!(!main_call.args.contains(&"-u".to_string()));
    assert!(main_call.args.contains(&"ZFSBootMenu".to_string()));
    assert!(main_call.args.iter().any(|a| a.contains("vmlinuz.EFI")));
}

#[test]
fn test_create_hostid() {
    let runner = RecordingRunner::new(vec![CannedResponse::default()]);
    create_hostid(&mut RunLog::new(&runner)).unwrap();

    let calls = runner.calls();
    assert_eq!(calls[0].program, "zgenhostid");
    assert!(calls[0].args.contains(&"0x00bab10c".to_string()));
}

#[test]
fn kmod_test_load_zfs_module() {
    let runner = RecordingRunner::new(vec![CannedResponse::default()]);
    assert!(load_zfs_module(&mut RunLog::new(&runner)).unwrap());

    let calls = runner.calls();
    assert_eq!(calls[0].program, "modprobe");
    assert_eq!(calls[0].args, vec!["zfs"]);
}

#[test]
fn zfs_setup_test_load_zfs_module() {
    let runner = RecordingRunner::new(vec![CannedResponse::default()]);
    assert!(load_zfs_module(&mut RunLog::new(&runner)).unwrap());

    let calls = runner.calls();
    assert_eq!(calls[0].program, "modprobe");
    assert_eq!(calls[0].args, vec!["zfs"]);
}

#[test]
fn zfs_is_available_when_module_and_tools_are() {
    let runner = RecordingRunner::new(vec![ok("zfs  1234  0\n"), ok(""), ok("")]);
    assert!(check_zfs_module(&mut RunLog::new(&runner)).unwrap());
    assert!(check_zfs_utils(&mut RunLog::new(&runner)).unwrap());
    let runner = RecordingRunner::new(vec![ok("ext4 1 0\n"), ok(""), fail("")]);
    assert!(!check_zfs_module(&mut RunLog::new(&runner)).unwrap());
    assert!(!check_zfs_utils(&mut RunLog::new(&runner)).unwrap());
}

fn repo(keys: &[&str]) -> Repository {
    Repository {
        name: "archzfs".to_string(),
        servers: vec!["https://example.invalid/archzfs".to_string()],
        mirrorlist: None,
        key_ids: keys.iter().map(|k| k.to_string()).collect(),
        signatures: Signatures::Required,
    }
}

#[test]
fn repositories_and_architecture_are_written_together() {
    let conf = "[options]\nHoldPkg = pacman\n\n[core]\n";
    let out = with_repositories(conf, Some("x86_64_v3"), &vec![repo(&[])]);
    assert!(out.contains("Architecture = x86_64_v3\n"));
    assert_eq!(out.matches("[archzfs]").count(), 1);
    assert_eq!(with_repositories(&out, Some("x86_64_v3"), &vec![repo(&[])]).matches("[archzfs]").count(), 1);
}

#[test]
fn keys_come_from_the_first_keyserver_that_has_them() {
    let runner = RecordingRunner::new(vec![
        fail("no key"),
        ok(""),
        ok(""),
        fail(""),
        fail(""),
        fail(""),
    ]);
    let missing = trust_repository_keys(&mut RunLog::new(&runner), Some("/mnt"), &repo(&["AAAA", "BBBB"]));
    assert_eq!(missing, vec!["BBBB".to_string()]);
    let calls = runner.calls();
    assert_eq!(calls[0].args, vec!["/mnt", "pacman-key", "--keyserver", "hkps://keyserver.ubuntu.com", "-r", "AAAA"]);
    assert_eq!(calls[1].args[3], "hkps://pgp.mit.edu");
    assert_eq!(calls[2].args, vec!["/mnt", "pacman-key", "--lsign-key", "AAAA"]);
    assert_eq!(calls.len(), 6);
}

#[test]
fn the_keyring_is_populated_only_after_init() {
    let runner = RecordingRunner::new(vec![fail("cannot init")]);
    assert_eq!(init_keyring(&mut RunLog::new(&runner), None, "archlinux"), Some("cannot init".to_string()));
    assert_eq!(runner.calls().len(), 1);
    let runner = RecordingRunner::new(vec![ok(""), ok("")]);
    assert_eq!(init_keyring(&mut RunLog::new(&runner), None, "archlinux"), None);
    assert_eq!(runner.calls()[1].args, vec!["--populate", "archlinux"]);
}

fn installed() -> InstalledSystem {
    InstalledSystem {
        pool_name: "pool".into(),
        pool_guid: "123".into(),
        dataset_prefix: "arch0".into(),
        efi_partuuid: "abcd".into(),
    }
}

#[test]
fn preparation_refuses_existing_pool_without_exporting_it() {
    let runner = RecordingRunner::new(vec![ok("pool\t123\n")]);
    let mut session = ShellSession::new("/run/azfs-shell-x");
    let target = installed();
    assert_eq!(session.import_pool(&mut RunLog::new(&runner), &target), Err(PrepareError::AlreadyImported));
    assert!(!session.imported);
    let mounts = session.owned_mounts(&target);
    assert_eq!(mounts.pool_to_export, None);
    assert_eq!(mounts.root_dataset, "pool/arch0/root");
    assert_eq!(runner.calls().len(), 1);
}

#[test]
fn a_session_imports_by_guid_and_then_owns_the_pool() {
    let runner = RecordingRunner::new(vec![ok("other\t9\n"), ok(""), ok("123\n")]);
    let mut session = ShellSession::new("/run/azfs-shell-x");
    let target = installed();
    assert_eq!(session.import_pool(&mut RunLog::new(&runner), &target), Ok(()));
    assert!(session.imported);
    let calls = runner.calls();
    assert_eq!(
        calls[1].args,
        vec!["import", "-N", "-R", "/run/azfs-shell-x", "-o", "cachefile=none", "123"]
    );
    assert_eq!(session.owned_mounts(&target).pool_to_export.as_deref(), Some("pool"));
}

#[test]
fn a_changed_identity_still_leaves_the_import_to_release() {
    let runner = RecordingRunner::new(vec![ok(""), ok(""), ok("456\n")]);
    let mut session = ShellSession::new("/run/azfs-shell-x");
    assert_eq!(session.import_pool(&mut RunLog::new(&runner), &installed()), Err(PrepareError::IdentityChanged));
    assert!(session.imported);
    assert_eq!(PrepareError::IdentityChanged.message(), "Imported pool identity changed");
}

#[test]
fn a_failed_import_owns_nothing() {
    let runner = RecordingRunner::new(vec![ok(""), fail("no such pool")]);
    let mut session = ShellSession::new("/run/azfs-shell-x");
    let r = session.import_pool(&mut RunLog::new(&runner), &installed());
    assert!(matches!(r, Err(PrepareError::Command(_))));
    assert!(!session.imported);
}

#[test]
fn the_listing_shows_a_pool_by_name_or_guid() {
    assert!(pool_already_imported("pool\t1\n", "pool", "123"));
    assert!(pool_already_imported("renamed\t123\n", "pool", "123"));
    assert!(!pool_already_imported("other\t9\n", "pool", "123"));
    assert!(!pool_already_imported("", "pool", "123"));
}

#[test]
fn the_shell_unit_and_the_report() {
    assert_eq!(shell_unit_name(4242), "azfs-shell-4242.service");
    assert_eq!(stop_verdict("u.service", true, ""), Ok(()));
    assert_eq!(stop_verdict("u.service", false, "not-found"), Ok(()));
    assert_eq!(
        stop_verdict("u.service", false, "loaded"),
        Err("Could not stop maintenance session u.service".to_string())
    );
    assert_eq!(
        session_outcome(Ok(())),
        "Shell closed. Session mounts were released; the installed pool was exported."
    );
    assert_eq!(
        session_outcome(Err("boom".into())),
        "Installation is complete. Maintenance session: boom. Session cleanup completed."
    );
}

#[test]
fn no_imported_pool_means_nothing_to_do() {
    let runner = RecordingRunner::new(vec![CannedResponse {
        stderr: "cannot open 'zroot': no such pool".into(),
        exit_code: 1,
        ..Default::default()
    }]);
    let on_target = |d: &str| (d.to_string(), d.starts_with("/nonexistent/part6"));
    assert!(!release_leftover_pool(&mut RunLog::new(&runner), "zroot", false, on_target).unwrap());
}

#[test]
fn an_existing_pool_installation_keeps_its_pool() {
    let runner = RecordingRunner::new(vec![]);
    assert!(!release_leftover_pool(&mut RunLog::new(&runner), "zroot", true, |d: &str| (d.to_string(), true)).unwrap());
    assert!(runner.calls().is_empty());
}

#[test]
fn a_leftover_on_the_target_is_exported_and_a_foreign_pool_refused() {
    let listing = "zroot\n\t/dev/sda6\tONLINE\n";
    let runner = RecordingRunner::new(vec![ok(listing), ok("")]);
    assert!(release_leftover_pool(&mut RunLog::new(&runner), "zroot", false, |d: &str| (d.to_string(), d == "/dev/sda6")).unwrap());
    assert_eq!(runner.calls()[1].args, vec!["export", "zroot"]);
    let runner = RecordingRunner::new(vec![ok(listing)]);
    let err = release_leftover_pool(&mut RunLog::new(&runner), "zroot", false, |d: &str| (d.to_string(), false)).unwrap_err();
    assert!(err.contains("A pool named zroot is already imported from /dev/sda6"), "{err}");
    assert_eq!(runner.calls().len(), 1);
}

#[test]
fn a_property_is_set_as_key_value_on_the_dataset() {
    let runner = RecordingRunner::new(vec![ok(""), fail("permission denied")]);
    set_property(&mut RunLog::new(&runner), "zroot/arch0", "org.zfsbootmenu:commandline", "quiet").unwrap();
    assert_eq!(runner.calls()[0].program, "zfs");
    assert_eq!(runner.calls()[0].args, vec!["set", "org.zfsbootmenu:commandline=quiet", "zroot/arch0"]);
    let err = set_property(&mut RunLog::new(&runner), "zroot/arch0", "canmount", "off").unwrap_err();
    assert_eq!(err, "zfs set canmount=off zroot/arch0: exit code 1, stderr: permission denied");
}

#[test]
fn datasets_mount_root_first_then_everything_else() {
    let runner = RecordingRunner::new(vec![ok(""), fail("busy"), ok("")]);
    mount_datasets_ordered(&mut RunLog::new(&runner), "zroot", "arch0").unwrap();
    let calls = runner.calls();
    assert_eq!(calls[0].args, vec!["mount", "zroot/arch0/root"]);
    assert_eq!(calls[1].args, vec!["mount", "-R", "zroot/arch0"]);
    assert_eq!(calls[2].args, vec!["mount", "-a"]);
    let runner = RecordingRunner::new(vec![ok(""), ok("")]);
    mount_datasets_ordered(&mut RunLog::new(&runner), "zroot", "arch0").unwrap();
    assert_eq!(runner.calls().len(), 2);
    let runner = RecordingRunner::new(vec![fail("no such dataset")]);
    assert!(mount_datasets_ordered(&mut RunLog::new(&runner), "zroot", "arch0").is_err());
    assert_eq!(runner.calls().len(), 1);
}

#[test]
fn unmounting_ignores_the_outcome() {
    let runner = RecordingRunner::new(vec![fail("not mounted")]);
    umount_dataset(&mut RunLog::new(&runner), "zroot/arch0/root");
    assert_eq!(runner.calls()[0].args, vec!["umount", "zroot/arch0/root"]);
}

#[test]
fn live_medium_preparation_commands() {
    let runner = RecordingRunner::new(vec![fail("not on a live medium"), ok(""), ok("")]);
    increase_cowspace(&mut RunLog::new(&runner)).unwrap();
    stop_reflector(&mut RunLog::new(&runner));
    let calls = runner.calls();
    assert_eq!(calls[0].program, "mount");
    assert_eq!(calls[0].args, vec!["-o", "remount,size=50%", "/run/archiso/cowspace"]);
    assert_eq!(calls[1].args, vec!["stop", "reflector.service"]);
    assert_eq!(calls[2].args, vec!["stop", "reflector.timer"]);
}

#[test]
fn a_failed_debootstrap_writes_no_sources() {
    let runner = RecordingRunner::new(vec![CannedResponse {
        exit_code: 1,
        stderr: "E: Couldn't download release".into(),
        ..Default::default()
    }]);
    let error = run_debootstrap(
        &mut RunLog::new(&runner),
        &["main"],
        "/usr/share/keyrings/debian-archive-keyring.gpg",
        "trixie",
        "/tmp/target",
        "http://deb.debian.org/debian",
    )
    .unwrap_err();
    assert!(error.contains("debootstrap"), "{error}");
    assert_eq!(runner.calls().len(), 1);
    assert_eq!(runner.calls()[0].program, "debootstrap");
}

#[test]
fn a_stale_mirror_list_is_refreshed_with_reflector() {
    assert!(!mirrorlist_stale(Some(86400)));
    assert!(mirrorlist_stale(Some(86401)));
    assert!(mirrorlist_stale(None));
    let runner = RecordingRunner::new(vec![fail("no network")]);
    assert_eq!(refresh_mirrors_if_stale(&mut RunLog::new(&runner), true, Some(100_000)), Ok(true));
    assert_eq!(runner.calls()[0].program, "reflector");
    assert_eq!(
        runner.calls()[0].args,
        vec!["--latest", "20", "--protocol", "https", "--sort", "rate", "--save", "/etc/pacman.d/mirrorlist"]
    );
    let runner = RecordingRunner::new(vec![]);
    assert_eq!(refresh_mirrors_if_stale(&mut RunLog::new(&runner), true, Some(60)), Ok(false));
    assert_eq!(refresh_mirrors_if_stale(&mut RunLog::new(&runner), false, None), Ok(false));
    assert!(runner.calls().is_empty());
}

#[test]
fn listed_boot_entries_are_not_created_again() {
    let runner = RecordingRunner::new(vec![ok(
        "Boot0001* ZFSBootMenu\nBoot0002* ZFSBootMenu (Backup)\n",
    )]);
    create_efi_entries(&mut RunLog::new(&runner), "/dev/sda1").unwrap();
    assert_eq!(runner.calls().len(), 1);
    assert_eq!(runner.calls()[0].args, vec!["-v"]);
}

#[test]
fn a_failed_main_entry_is_an_error_and_a_failed_backup_is_not() {
    let runner = RecordingRunner::new(vec![ok("BootCurrent: 0000\n"), fail("no space")]);
    assert_eq!(
        create_efi_entries(&mut RunLog::new(&runner), "/dev/sda1").unwrap_err(),
        "efibootmgr create ZFSBootMenu entry: exit code 1, stderr: no space"
    );
    assert_eq!(runner.calls().len(), 2);
    let runner = RecordingRunner::new(vec![ok("Boot0001* ZFSBootMenu\n"), fail("no space")]);
    create_efi_entries(&mut RunLog::new(&runner), "/dev/sda1").unwrap();
    let calls = runner.calls();
    assert_eq!(calls.len(), 2);
    assert_eq!(
        calls[1].args,
        vec![
            "-c",
            "-d",
            "/dev/sda1",
            "-L",
            "ZFSBootMenu (Backup)",
            "-l",
            "\\EFI\\zbm\\vmlinuz-backup.EFI"
        ]
    );
}

#[test]
fn a_busy_filesystem_stops_the_unmounting() {
    let runner = RecordingRunner::new(vec![ok("/t/a x\n/t/b/c y\n"), fail("target is busy")]);
    assert_eq!(
        unmount_under(&mut RunLog::new(&runner), "/t").unwrap_err(),
        "unmount an earlier run's filesystem: exit code 1, stderr: target is busy"
    );
    assert_eq!(runner.calls().len(), 2);
    assert_eq!(runner.calls()[1].args, vec!["--recursive", "/t/b/c"]);
    let runner = RecordingRunner::new(vec![fail("no findmnt")]);
    assert_eq!(
        unmount_under(&mut RunLog::new(&runner), "/t").unwrap_err(),
        "list mounted filesystems: exit code 1, stderr: no findmnt"
    );
}

#[test]
fn a_pool_is_imported_only_when_its_listing_succeeds() {
    let runner = RecordingRunner::new(vec![fail("no such pool")]);
    assert_eq!(imported_pool_devices(&mut RunLog::new(&runner), "zroot").unwrap(), None);
    assert_eq!(
        runner.calls()[0].args,
        vec!["list", "-H", "-P", "-v", "-o", "name", "zroot"]
    );
    let runner = RecordingRunner::new(vec![ok("zroot\n\tmirror-0\n\t\t/dev/sda2\n\t\t/dev/sdb2\n")]);
    assert_eq!(
        imported_pool_devices(&mut RunLog::new(&runner), "zroot").unwrap(),
        Some(vec!["/dev/sda2".to_string(), "/dev/sdb2".to_string()])
    );
}

#[test]
fn a_dataset_exists_when_zfs_lists_it() {
    let runner = RecordingRunner::new(vec![ok("pool/a\n")]);
    assert!(dataset_exists(&mut RunLog::new(&runner), "pool/a"));
    assert_eq!(runner.calls()[0].args, vec!["list", "-H", "pool/a"]);
    let runner = RecordingRunner::new(vec![fail("does not exist")]);
    assert!(!dataset_exists(&mut RunLog::new(&runner), "pool/a"));
}

#[test]
fn a_leftover_on_the_targets_is_released_and_another_refused() {
    let runner = RecordingRunner::new(vec![ok("zroot\n\t/dev/sda2\n"), ok("")]);
    let released =
        release_leftover_pool(&mut RunLog::new(&runner), "zroot", false, |d: &str| (d.to_string(), d == "/dev/sda2"));
    assert_eq!(released, Ok(true));
    assert_eq!(runner.calls()[1].args, vec!["export", "zroot"]);
    let runner = RecordingRunner::new(vec![ok("zroot\n\t/dev/sdc1\n")]);
    let refused =
        release_leftover_pool(&mut RunLog::new(&runner), "zroot", false, |d: &str| (d.to_string(), d == "/dev/sda2"));
    assert_eq!(
        refused,
        Err("A pool named zroot is already imported from /dev/sdc1, which this installation does not use. Choose another pool name or export that pool first.".to_string())
    );
    assert_eq!(runner.calls().len(), 1);
    let runner = RecordingRunner::new(vec![fail("no pool")]);
    assert_eq!(
        release_leftover_pool(&mut RunLog::new(&runner), "zroot", false, |d: &str| (d.to_string(), true)),
        Ok(false)
    );
    let runner = RecordingRunner::new(vec![]);
    assert_eq!(
        release_leftover_pool(&mut RunLog::new(&runner), "zroot", true, |d: &str| (d.to_string(), true)),
        Ok(false)
    );
    assert!(runner.calls().is_empty());
}

#[test]
fn reflector_is_waited_for_until_it_settles_or_five_minutes_pass() {
    assert_eq!(REFLECTOR_WAIT_POLLS, 300);
    assert_eq!(reflector_wait(1, false), ReflectorWait::Poll);
    assert_eq!(reflector_wait(1, true), ReflectorWait::Stop);
    assert_eq!(reflector_wait(299, false), ReflectorWait::Poll);
    assert_eq!(reflector_wait(300, false), ReflectorWait::Stop);
}

#[test]
fn the_maintenance_import_lists_then_imports_by_guid_then_checks_it() {
    let target = installed();
    let runner = RecordingRunner::new(vec![
        ok("otherpool\t111\n"),
        ok(""),
        ok(&format!("{}\n", target.pool_guid)),
    ]);
    let mut session = ShellSession::new("/run/azfs-shell");
    session.import_pool(&mut RunLog::new(&runner), &target).unwrap();
    let calls: Vec<(String, Vec<String>)> =
        runner.calls().into_iter().map(|c| (c.program, c.args)).collect();
    assert_eq!(
        calls,
        vec![
            ("zpool".to_string(), vec!["list", "-H", "-o", "name,guid"].into_iter().map(String::from).collect::<Vec<_>>()),
            (
                "zpool".to_string(),
                vec!["import", "-N", "-R", "/run/azfs-shell", "-o", "cachefile=none", target.pool_guid.as_str()]
                    .into_iter()
                    .map(String::from)
                    .collect()
            ),
            (
                "zpool".to_string(),
                vec!["get", "-H", "-o", "value", "guid", target.pool_name.as_str()]
                    .into_iter()
                    .map(String::from)
                    .collect()
            ),
        ]
    );
    assert!(session.imported);
    let runner = RecordingRunner::new(vec![fail("no zpool")]);
    let mut session = ShellSession::new("/run/azfs-shell");
    assert_eq!(
        session.import_pool(&mut RunLog::new(&runner), &target),
        Err(PrepareError::Command("zpool: exit code 1, stderr: no zpool".to_string()))
    );
    assert!(!session.imported);
}

#[test]
fn an_unsafe_root_is_refused_before_anything_runs() {
    let runner = RecordingRunner::new(vec![]);
    let mut m = OwnedMounts {
        root: "relative/root".into(),
        root_dataset: "pool/arch0/root".into(),
        pool_to_export: Some("pool".into()),
    };
    assert_eq!(m.cleanup(&mut RunLog::new(&runner)), Err("Refusing cleanup of an unsafe root".to_string()));
    assert!(runner.calls().is_empty());
    assert_eq!(m.pool_to_export, Some("pool".to_string()));
}
