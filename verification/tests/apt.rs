use archinstall_zfs::apt::{
    apt_get_args, check_package_names, count_changes, debootstrap_args, error_detail,
    install_failure_message, Status, StatusKind, APT_OPTIONS, LEGACY_SOURCES_PATH,
    PREFERENCES_PATH, SOURCES_PATH,
};

fn status(kind: StatusKind, subject: &str, percent: &str, message: &str) -> Status {
    Status {
        kind,
        subject: subject.to_string(),
        percent: percent.to_string(),
        message: message.to_string(),
    }
}

#[test]
fn package_status_is_parsed() {
    let s = Status::parse("pmstatus:zfs-dkms:45.4545:Configuring zfs-dkms (amd64)").unwrap();
    assert_eq!(
        s,
        status(StatusKind::Package, "zfs-dkms", "45.4545", "Configuring zfs-dkms (amd64)")
    );
    assert_eq!(s.percent.parse::<f32>().unwrap(), 45.4545);
}

#[test]
fn an_architecture_qualified_package_keeps_its_qualifier() {
    assert_eq!(
        Status::parse("pmstatus:libc6:amd64:10:Unpacking libc6:amd64"),
        Some(status(StatusKind::Package, "libc6:amd64", "10", "Unpacking libc6:amd64"))
    );
}

#[test]
fn download_and_error_lines_are_told_apart() {
    assert_eq!(
        Status::parse("dlstatus:3:23.6:Retrieving file 3 of 12"),
        Some(status(StatusKind::Download, "3", "23.6", "Retrieving file 3 of 12"))
    );
    assert_eq!(
        Status::parse("pmerror:/var/cache/apt/archives/x.deb:50:trying to overwrite"),
        Some(status(
            StatusKind::Error,
            "/var/cache/apt/archives/x.deb",
            "50",
            "trying to overwrite"
        ))
    );
}

#[test]
fn ordinary_output_is_not_status() {
    for line in [
        "Reading package lists...",
        "Setting up zfs-dkms (2.4.4-1~bpo13+1) ...",
        "pmstatus:no-percentage-here",
        "pmconffile:/etc/foo:'old' 'new'",
        "",
    ] {
        assert_eq!(Status::parse(line), None, "{line}");
    }
}

#[test]
fn every_percentage_apt_may_write_reads_as_a_number() {
    for p in ["1e3", "-0.5", ".5", "5.", "inf", "NaN", "+Infinity", "2E-2"] {
        let line = format!("dlstatus:1:{p}:msg");
        let s = Status::parse(&line).unwrap();
        assert_eq!(s.percent, p);
        assert!(s.percent.parse::<f32>().is_ok(), "{p}");
    }
    for p in [".", "1.2.3", "e5", "1e", "--1", "x"] {
        assert!(p.parse::<f32>().is_err(), "{p}");
        assert_eq!(Status::parse(&format!("dlstatus:1:{p}:msg")), None, "{p}");
    }
}

#[test]
fn a_simulated_install_counts_its_inst_lines() {
    let out = "Reading...\nInst zfs-dkms (2.4)\nConf zfs-dkms\nInst libc6 [2.36]\n Inst indented\n";
    assert_eq!(count_changes(out), 2);
    assert_eq!(count_changes(""), 0);
}

#[test]
fn an_option_is_not_taken_for_a_package() {
    assert!(check_package_names(&["zfs-dkms", "vim"]).is_ok());
    assert_eq!(
        check_package_names(&["vim", "--purge", "-y"]).unwrap_err(),
        "'--purge' is not a package name"
    );
}

#[test]
fn a_failed_install_names_the_package_apt_blamed() {
    assert_eq!(
        install_failure_message(100, Some("zfs-dkms: oops"), "E: stuff\n"),
        "apt-get install failed (exit 100): zfs-dkms: oops"
    );
    assert_eq!(
        install_failure_message(1, None, "  E: stuff\n"),
        "apt-get install failed (exit 1): E: stuff"
    );
}

#[test]
fn apt_get_runs_in_the_target_non_interactively() {
    let args = apt_get_args("/mnt", &["--simulate", "install", "a", "b"]);
    assert_eq!(args[0], "/mnt");
    assert_eq!(args[1..4], ["env", "DEBIAN_FRONTEND=noninteractive", "apt-get"]);
    assert_eq!(args[4..14], APT_OPTIONS);
    assert!(args.contains(&"--simulate".to_string()));
    assert!(args.ends_with(&["install".into(), "a".into(), "b".into()]));
}

#[test]
fn debootstrap_gets_the_release_with_its_components() {
    assert_eq!(
        debootstrap_args(
            &["main", "contrib", "non-free-firmware"],
            "/usr/share/keyrings/debian-archive-keyring.gpg",
            "trixie",
            "/mnt",
            "http://deb.debian.org/debian",
        ),
        vec![
            "--arch=amd64",
            "--components=main,contrib,non-free-firmware",
            "--keyring=/usr/share/keyrings/debian-archive-keyring.gpg",
            "trixie",
            "/mnt",
            "http://deb.debian.org/debian",
        ]
    );
    assert_eq!(SOURCES_PATH, "etc/apt/sources.list.d/debian.sources");
    assert_eq!(LEGACY_SOURCES_PATH, "etc/apt/sources.list");
    assert_eq!(PREFERENCES_PATH, "etc/apt/preferences.d/archinstall-zfs");
}

#[test]
fn an_apt_error_line_names_its_package() {
    let status = Status::parse("pmerror:b:100:subprocess failed").unwrap();
    assert_eq!(error_detail(&status).as_deref(), Some("b: subprocess failed"));
    let status = Status::parse("pmstatus:a:50:Installing a").unwrap();
    assert_eq!(error_detail(&status), None);
}
