use archinstall_zfs::download::DownloadTask;
use archinstall_zfs::download_schedule::{
    after_failure, batch_outcome, download_order, final_failure, first_attempt,
    hash_while_receiving, http_failure_message, idle_timeout_message, no_mirrors_message,
    response_verdict, resume_range, NextAttempt, ResponseVerdict, RESUME_REJECTED,
};

fn task(name: &str, size: i64) -> DownloadTask {
    DownloadTask {
        filename: name.to_string(),
        servers: vec!["https://a".to_string()],
        sha256: None,
        size,
    }
}

#[test]
fn large_packages_start_first_and_ties_keep_their_order() {
    let tasks = vec![task("a", 10), task("b", 300), task("c", 10), task("d", 50), task("e", -1)];
    assert_eq!(download_order(&tasks), vec![1, 3, 0, 2, 4]);
    assert_eq!(download_order(&[]), Vec::<usize>::new());
}

#[test]
fn each_mirror_gets_its_attempts_with_doubling_waits() {
    assert_eq!(first_attempt(2, 3), NextAttempt::Try { mirror: 0, attempt: 1, wait_secs: 0 });
    assert_eq!(after_failure(0, 1, 2, 3, 1), NextAttempt::Try { mirror: 0, attempt: 2, wait_secs: 1 });
    assert_eq!(after_failure(0, 2, 2, 3, 1), NextAttempt::Try { mirror: 0, attempt: 3, wait_secs: 2 });
    assert_eq!(after_failure(0, 3, 2, 3, 1), NextAttempt::Try { mirror: 1, attempt: 1, wait_secs: 0 });
    assert_eq!(after_failure(1, 3, 2, 3, 1), NextAttempt::GiveUp);
    assert_eq!(after_failure(1, 4, 2, 5, 3), NextAttempt::Try { mirror: 1, attempt: 5, wait_secs: 24 });
}

#[test]
fn no_mirror_or_no_retries_means_no_attempt() {
    assert_eq!(first_attempt(0, 3), NextAttempt::GiveUp);
    assert_eq!(first_attempt(2, 0), NextAttempt::GiveUp);
    assert_eq!(final_failure("pkg.tar.zst", None), "no mirrors available for pkg.tar.zst");
    assert_eq!(no_mirrors_message("x"), "no mirrors available for x");
    assert_eq!(final_failure("pkg.tar.zst", Some("HTTP 404 Not Found for u".to_string())), "HTTP 404 Not Found for u");
}

#[test]
fn a_part_file_is_resumed_with_a_range_request() {
    assert_eq!(resume_range(0), None);
    assert_eq!(resume_range(1234).as_deref(), Some("bytes=1234-"));
}

#[test]
fn the_answer_decides_between_fresh_resumed_and_failed() {
    assert_eq!(response_verdict(200, 0), ResponseVerdict::Fresh);
    assert_eq!(response_verdict(200, 500), ResponseVerdict::Fresh);
    assert_eq!(response_verdict(206, 500), ResponseVerdict::Resumed);
    assert_eq!(response_verdict(416, 500), ResponseVerdict::ResumeRejected);
    assert_eq!(response_verdict(416, 0), ResponseVerdict::Refused);
    assert_eq!(response_verdict(404, 0), ResponseVerdict::Refused);
    assert_eq!(response_verdict(301, 0), ResponseVerdict::Refused);
    assert!(hash_while_receiving(ResponseVerdict::Fresh));
    assert!(!hash_while_receiving(ResponseVerdict::Resumed));
    assert_eq!(RESUME_REJECTED, "resume rejected, will retry from start");
}

#[test]
fn failure_messages_name_what_failed() {
    assert_eq!(http_failure_message("404 Not Found", "https://m/x"), "HTTP 404 Not Found for https://m/x");
    assert_eq!(
        idle_timeout_message("https://m", 30, 100, 2048),
        "no data from https://m for 30s (100 of 2048 bytes)"
    );
    assert_eq!(
        idle_timeout_message("https://m", 0, 0, 0),
        format!("no data from https://m for {:?} (0 of 0 bytes)", std::time::Duration::from_secs(0))
    );
    assert_eq!(
        idle_timeout_message("https://m", 30, 1, 2),
        format!("no data from https://m for {:?} (1 of 2 bytes)", std::time::Duration::from_secs(30))
    );
}

#[test]
fn a_failed_batch_reports_cancellation_or_the_count() {
    assert_eq!(batch_outcome(&vec![]), Ok(()));
    assert_eq!(
        batch_outcome(&vec!["download cancelled".to_string(), "HTTP 500".to_string()]),
        Err("download cancelled".to_string())
    );
    assert_eq!(
        batch_outcome(&vec!["HTTP 500".to_string(), "download cancelled".to_string()]),
        Err("2 package download(s) failed".to_string())
    );
}
