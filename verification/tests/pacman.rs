use archinstall_zfs::pacman::{replace_repo_block, Repository, Signatures};

fn repo() -> Repository {
    Repository {
        name: "archzfs".to_string(),
        servers: vec!["https://example.invalid/archzfs".to_string()],
        mirrorlist: None,
        key_ids: vec![],
        signatures: Signatures::Never,
    }
}

#[test]
fn a_repository_is_added_once() {
    let conf = "[options]\nHoldPkg = pacman\n\n[core]\nInclude = /etc/pacman.d/mirrorlist\n";

    let once = replace_repo_block(conf, &repo());
    let twice = replace_repo_block(&once, &repo());

    assert_eq!(once.matches("[archzfs]").count(), 1);
    assert_eq!(
        twice.matches("[archzfs]").count(),
        1,
        "re-running an installation must not stack blocks: {twice}"
    );
}

#[test]
fn rewriting_replaces_the_old_settings() {
    let conf = "[options]\n\n[archzfs]\nSigLevel = Optional\nServer = https://old.invalid\n\n[core]\nInclude = /etc/pacman.d/mirrorlist\n";

    let result = replace_repo_block(conf, &repo());

    assert!(!result.contains("https://old.invalid"), "got: {result}");
    assert!(result.contains("https://example.invalid/archzfs"));
    assert!(result.contains("SigLevel = Never"));
    assert!(result.contains("[core]"));
    assert!(result.contains("Include = /etc/pacman.d/mirrorlist"));
}

#[test]
fn other_sections_keep_their_settings() {
    let conf = "[options]\nParallelDownloads = 5\n\n[extra]\nSigLevel = Required\n";

    let result = replace_repo_block(conf, &repo());

    assert!(result.contains("ParallelDownloads = 5"));
    assert!(result.contains("[extra]\nSigLevel = Required"));
}

#[test]
fn the_block_lists_level_include_and_servers() {
    let r = Repository {
        name: "extra".to_string(),
        servers: vec!["https://a.invalid".to_string(), "https://b.invalid".to_string()],
        mirrorlist: Some("/etc/pacman.d/mirrorlist".to_string()),
        key_ids: vec![],
        signatures: Signatures::Required,
    };
    assert_eq!(
        r.pacman_conf_block(),
        "\n[extra]\nSigLevel = Required DatabaseOptional\nInclude = /etc/pacman.d/mirrorlist\nServer = https://a.invalid\nServer = https://b.invalid\n"
    );
    assert_eq!(Signatures::Optional.sig_level(), "Optional TrustAll");
}

#[test]
fn rewriting_again_only_adds_an_empty_line_before_the_section() {
    let conf = "[options]\nHoldPkg = pacman\n\n[archzfs]\nServer = https://old.invalid\n\n[core]\nInclude = /etc/pacman.d/mirrorlist\n";
    let once = replace_repo_block(conf, &repo());
    let twice = replace_repo_block(&once, &repo());
    let block = repo().pacman_conf_block();
    let kept = "[options]\nHoldPkg = pacman\n\n[core]\nInclude = /etc/pacman.d/mirrorlist\n";
    assert_eq!(once, format!("{kept}{block}"));
    assert_eq!(twice, format!("{kept}\n{block}"));
}
