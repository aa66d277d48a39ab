use archinstall_zfs::cmd::CmdOutput;
use archinstall_zfs::controllers::demo::{readonly_confirmed, readonly_import_args, DemoSession};

#[test]
fn readonly_import_arguments_are_explicit() {
    assert_eq!(
        readonly_import_args("tank"),
        [
            "import",
            "-N",
            "-o",
            "readonly=on",
            "-o",
            "cachefile=none",
            "tank",
        ]
    );
}

#[test]
fn only_pools_the_session_imported_may_be_exported() {
    let mut session = DemoSession::new();
    assert_eq!(
        session.check_export("tank").unwrap_err(),
        "refusing to export a pool not imported by this demo session"
    );
    session.imported("tank");
    session.imported("tank");
    assert!(session.owns("tank"));
    assert!(session.check_export("tank").is_ok());
    assert!(session.check_export("data").is_err());
    assert_eq!(session.owned(), vec!["tank".to_string()]);
    session.exported("tank");
    assert!(!session.owns("tank"));
    assert!(session.owned().is_empty());
}

#[test]
fn a_readonly_import_is_confirmed_by_the_property() {
    let on = CmdOutput {
        stdout: "on\n".into(),
        stderr: String::new(),
        exit_code: 0,
    };
    assert!(readonly_confirmed(&on));
    let off = CmdOutput {
        stdout: "off\n".into(),
        ..on.clone()
    };
    assert!(!readonly_confirmed(&off));
    let failed = CmdOutput {
        exit_code: 1,
        ..on
    };
    assert!(!readonly_confirmed(&failed));
}
