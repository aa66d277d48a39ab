use std::time::Duration;

use archinstall_zfs::digest::{
    cached_file_valid, digest_feed, digest_finish_hex, digest_start, sha256_hex, verify_digest,
};
use archinstall_zfs::download::{
    part_file_path, total_task_bytes, DownloadConfig, DownloadTask, PackageProgress, PackageState,
    SpeedTracker,
};

#[test]
fn test_part_file_path() {
    let part = part_file_path("/cache/linux-6.8.1-x86_64.pkg.tar.zst");
    assert_eq!(part, "/cache/linux-6.8.1-x86_64.pkg.tar.zst.part");
}

#[test]
fn test_speed_tracker() {
    let mut tracker = SpeedTracker::new();
    assert_eq!(tracker.speed_bps(), 0);

    tracker.record(1_000_000_000, 1000);
    // Single entry — can't compute speed
    assert_eq!(tracker.speed_bps(), 0);
}

#[test]
fn test_download_progress_eta() {
    let progress = PackageProgress::Downloading {
        packages: vec![PackageState::Downloading {
            filename: "test".into(),
            downloaded: 50,
            total: 100,
            speed_bps: 10,
            mirror: "mirror".into(),
            attempt: 1,
        }],
        total_bytes: 100,
        downloaded_bytes: 50,
        active_downloads: 1,
        completed: 0,
        failed: 0,
    };

    assert_eq!(progress.total_speed_bps(), 10);
    assert_eq!(progress.eta().map(Duration::from_secs), Some(Duration::from_secs(5)));
}

#[test]
fn test_download_progress_eta_zero_speed() {
    let progress = PackageProgress::Downloading {
        packages: vec![PackageState::Queued],
        total_bytes: 100,
        downloaded_bytes: 0,
        active_downloads: 0,
        completed: 0,
        failed: 0,
    };

    assert!(progress.eta().is_none());
}

#[test]
fn test_download_config_default() {
    let config = DownloadConfig::default();
    assert_eq!(config.concurrency, 5);
    assert_eq!(config.retries_per_mirror, 3);
    assert_eq!(Duration::from_secs(config.connect_timeout_secs), Duration::from_secs(10));
    assert_eq!(Duration::from_secs(config.idle_timeout_secs), Duration::from_secs(30));
}

fn queued(count: usize, total_bytes: u64) -> PackageProgress {
    PackageProgress::Downloading {
        packages: vec![PackageState::Queued; count],
        total_bytes,
        downloaded_bytes: 0,
        active_downloads: 0,
        completed: 0,
        failed: 0,
    }
}

fn counters(progress: &PackageProgress) -> (usize, usize, usize, u64) {
    match progress {
        PackageProgress::Downloading {
            active_downloads,
            completed,
            failed,
            downloaded_bytes,
            ..
        } => (*active_downloads, *completed, *failed, *downloaded_bytes),
        other => panic!("expected a downloading phase, got {other:?}"),
    }
}

fn downloading(downloaded: u64, attempt: u32) -> PackageState {
    PackageState::Downloading {
        filename: "pkg".into(),
        downloaded,
        total: 100,
        speed_bps: 0,
        mirror: "https://mirror.example".into(),
        attempt,
    }
}

#[test]
fn a_package_found_in_the_cache_counts_as_completed() {
    let mut progress = queued(2, 300);
    progress.record_package(
        0,
        PackageState::Done {
            filename: "cached.pkg".into(),
            bytes: 100,
        },
    );
    let (active, completed, failed, bytes) = counters(&progress);
    assert_eq!((active, completed, failed), (0, 1, 0));
    assert_eq!(bytes, 100);
}

#[test]
fn a_retry_after_a_failed_digest_keeps_the_counters_sane() {
    let mut progress = queued(1, 100);
    progress.record_package(0, downloading(100, 1));
    assert_eq!(counters(&progress).0, 1);
    progress.record_package(
        0,
        PackageState::Verifying {
            filename: "pkg".into(),
            bytes: 100,
        },
    );
    assert_eq!(counters(&progress).0, 0);
    progress.record_package(0, downloading(40, 1));
    progress.record_package(
        0,
        PackageState::Done {
            filename: "pkg".into(),
            bytes: 100,
        },
    );
    let (active, completed, failed, bytes) = counters(&progress);
    assert_eq!((active, completed, failed), (0, 1, 0));
    assert_eq!(bytes, 100, "a retried package must not be counted twice");
}

#[test]
fn bytes_never_exceed_the_total_when_a_mirror_is_retried() {
    let mut progress = queued(1, 100);
    progress.record_package(0, downloading(80, 1));
    progress.record_package(0, downloading(30, 2));
    let (_, _, _, bytes) = counters(&progress);
    assert_eq!(bytes, 30, "the abandoned attempt's bytes must not linger");
}

#[test]
fn the_latest_state_of_each_package_is_what_counts() {
    let mut progress = queued(3, 300);
    progress.record_package(0, downloading(10, 1));
    progress.record_package(
        1,
        PackageState::Failed {
            filename: "b".into(),
            error: "gone".into(),
        },
    );
    progress.record_package(
        2,
        PackageState::Done {
            filename: "c".into(),
            bytes: 100,
        },
    );
    assert_eq!(counters(&progress), (1, 1, 1, 110));
}

#[test]
fn recording_outside_the_download_phase_changes_nothing() {
    let mut progress = PackageProgress::Done;
    progress.record_package(5, PackageState::Queued);
    assert!(matches!(progress, PackageProgress::Done));
}

#[test]
fn speed_is_bytes_over_the_window() {
    let mut tracker = SpeedTracker::new();
    tracker.record(1_000_000_000, 1000);
    tracker.record(2_000_000_000, 1000);
    tracker.record(3_000_000_000, 1000);
    assert_eq!(tracker.speed_bps(), 1500);
    // Everything older than five seconds falls out of the window.
    tracker.record(9_000_000_000, 500);
    assert_eq!(tracker.window.len(), 1);
    assert_eq!(tracker.speed_bps(), 0);
}

#[test]
fn eta_is_remaining_bytes_over_speed_rounded_down() {
    let progress = PackageProgress::Downloading {
        packages: vec![downloading(1, 1), downloading(1, 1)],
        total_bytes: 1000,
        downloaded_bytes: 1,
        active_downloads: 2,
        completed: 0,
        failed: 0,
    };
    assert_eq!(progress.eta(), None);
    let progress = PackageProgress::Downloading {
        packages: vec![PackageState::Downloading {
            filename: "a".into(),
            downloaded: 0,
            total: 1000,
            speed_bps: 300,
            mirror: "m".into(),
            attempt: 1,
        }],
        total_bytes: 1000,
        downloaded_bytes: 0,
        active_downloads: 1,
        completed: 0,
        failed: 0,
    };
    assert_eq!(progress.eta(), Some(3));
    assert_eq!(PackageProgress::Done.eta(), None);
}

#[test]
fn a_part_file_sits_beside_its_destination() {
    assert_eq!(part_file_path("pkg.tar.zst"), "pkg.tar.zst.part");
    assert_eq!(part_file_path("/a/b/c"), "/a/b/c.part");
}

#[test]
fn the_digest_of_known_data_is_its_published_hex() {
    assert_eq!(
        sha256_hex(b"hello world"),
        "b94d27b9934d3e08a52e52d7da7dabfac484efe37a5380ee9088f7ace2efcde9"
    );
    assert_eq!(
        sha256_hex(b""),
        "e3b0c44298fc1c149afbf4c8996fb92427ae41e4649b934ca495991b7852b855"
    );
}

#[test]
fn cached_files_are_judged_by_presence_and_digest() {
    assert!(!cached_file_valid(false, None, None));
    assert!(cached_file_valid(true, None, None));
    assert!(cached_file_valid(true, Some("ab"), Some("ab")));
    assert!(!cached_file_valid(true, Some("ab"), Some("cd")));
    assert!(!cached_file_valid(true, Some("ab"), None));
}

#[test]
fn a_digest_mismatch_names_both_digests() {
    assert!(verify_digest("/cache/p", "ab", "ab").is_ok());
    assert_eq!(
        verify_digest("/cache/p", "ab", "cd").unwrap_err(),
        "SHA256 mismatch for /cache/p: expected ab, got cd"
    );
}

#[test]
fn cached_file_matching_its_digest_is_accepted() {
    let expected = sha256_hex(b"hello world");
    let actual = sha256_hex(b"hello world");
    assert!(cached_file_valid(true, Some(&expected), Some(&actual)));
}

#[test]
fn cached_file_with_a_wrong_digest_is_rejected() {
    let actual = sha256_hex(b"hello world");
    assert!(!cached_file_valid(true, Some("0000bad"), Some(&actual)));
}

#[test]
fn cached_file_without_a_digest_is_trusted() {
    let actual = sha256_hex(b"anything");
    assert!(cached_file_valid(true, None, Some(&actual)));
}

#[test]
fn missing_cached_file_is_not_valid() {
    assert!(!cached_file_valid(false, Some("abc"), None));
    // Absent digest must not make a missing file look cached.
    assert!(!cached_file_valid(false, None, None));
}

#[test]
fn bytes_on_disk_follow_the_package_state() {
    assert_eq!(PackageState::Queued.bytes_on_disk(), 0);
    assert_eq!(downloading(40, 1).bytes_on_disk(), 40);
    let verifying = PackageState::Verifying { filename: "pkg".into(), bytes: 70 };
    assert_eq!(verifying.bytes_on_disk(), 70);
    let done = PackageState::Done { filename: "pkg".into(), bytes: 100 };
    assert_eq!(done.bytes_on_disk(), 100);
    let failed = PackageState::Failed { filename: "pkg".into(), error: "x".into() };
    assert_eq!(failed.bytes_on_disk(), 0);
}

#[test]
fn the_total_counts_only_declared_sizes() {
    let task = |size: i64| DownloadTask {
        filename: "p".into(),
        servers: vec![],
        sha256: None,
        size,
    };
    assert_eq!(total_task_bytes(&[task(100), task(-1), task(0), task(50)]), 150);
    assert_eq!(total_task_bytes(&[]), 0);
}

#[test]
fn a_digest_fed_in_pieces_is_the_digest_of_the_whole() {
    let mut h = digest_start();
    digest_feed(&mut h, b"hello");
    digest_feed(&mut h, b"");
    digest_feed(&mut h, b" world");
    let pieces = digest_finish_hex(h);
    assert_eq!(pieces, sha256_hex(b"hello world"));
    assert_eq!(
        pieces,
        "b94d27b9934d3e08a52e52d7da7dabfac484efe37a5380ee9088f7ace2efcde9"
    );
    assert_eq!(
        digest_finish_hex(digest_start()),
        "e3b0c44298fc1c149afbf4c8996fb92427ae41e4649b934ca495991b7852b855"
    );
}
