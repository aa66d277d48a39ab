use archinstall_zfs::mirrors::{
    candidate_indices, fastest_first, mirrorlist, sample_order, MirrorFacts, RankedMirror,
};

fn status(url: &str, country: &str, code: &str) -> MirrorFacts {
    MirrorFacts {
        url: url.into(),
        protocol: "https".into(),
        country: country.into(),
        country_code: code.into(),
        active: true,
        complete: true,
        delay: Some(600),
    }
}

const TWELVE_HOURS: u64 = 12 * 3600;

#[test]
fn candidates_keep_only_current_https_mirrors_of_the_wanted_countries() {
    let mut stale = status("https://stale.example/", "Germany", "DE");
    stale.delay = Some(2 * 24 * 3600);
    let mut flaky = status("https://flaky.example/", "Germany", "DE");
    flaky.complete = false;
    let mut plain = status("http://plain.example/", "Germany", "DE");
    plain.protocol = "http".into();
    let mut never = status("https://never.example/", "Germany", "DE");
    never.delay = None;
    let list = vec![
        status("https://de.example/", "Germany", "DE"),
        status("https://nl.example/", "Netherlands", "NL"),
        stale,
        flaky,
        plain,
        never,
    ];
    assert_eq!(candidate_indices(&list, &vec![], TWELVE_HOURS), vec![0, 1]);
    assert_eq!(
        candidate_indices(&list, &vec!["netherlands".into()], TWELVE_HOURS),
        vec![1]
    );
    assert_eq!(candidate_indices(&list, &vec![" de ".into()], TWELVE_HOURS), vec![0]);
}

#[test]
fn a_mirror_ahead_of_the_check_is_current() {
    let mut ahead = status("https://ahead.example/", "Finland", "FI");
    ahead.delay = Some(-59);
    let mut no_slash = status("https://x.example", "Finland", "FI");
    no_slash.delay = Some(0);
    assert_eq!(candidate_indices(&vec![ahead, no_slash], &vec![], TWELVE_HOURS), vec![0]);
}

fn ranked() -> Vec<RankedMirror> {
    vec![
        RankedMirror {
            url: "https://fast.example/archlinux/".into(),
            country: "Finland".into(),
            latency_ms: 40,
            bytes_per_sec: 20 * 1024 * 1024,
        },
        RankedMirror {
            url: "https://slow.example/".into(),
            country: String::new(),
            latency_ms: 300,
            bytes_per_sec: 100 * 1024,
        },
    ]
}

#[test]
fn the_mirrorlist_keeps_the_fastest_and_pacman_syntax() {
    let ranked = ranked();
    let text = mirrorlist(&ranked, 1);
    assert!(text.contains("Server = https://fast.example/archlinux/$repo/os/$arch\n"));
    assert!(!text.contains("slow.example"));
    assert!(text.contains("# Finland — 20480 KiB/s, 40 ms"));
    assert!(mirrorlist(&ranked, 5).contains("# ? — 100 KiB/s, 300 ms"));
}

#[test]
fn measured_mirrors_are_ordered_by_throughput_then_latency() {
    let mut list = ranked();
    list.push(RankedMirror {
        url: "https://quick.example/".into(),
        country: "Sweden".into(),
        latency_ms: 10,
        bytes_per_sec: 100 * 1024,
    });
    let urls: Vec<String> = fastest_first(list).into_iter().map(|m| m.url).collect();
    assert_eq!(
        urls,
        vec![
            "https://fast.example/archlinux/",
            "https://quick.example/",
            "https://slow.example/"
        ]
    );
}

#[test]
fn the_quickest_answers_are_sampled() {
    assert_eq!(sample_order(&vec![30, 10, 20, 10], 3), vec![1, 3, 2]);
    assert_eq!(sample_order(&vec![5], 24), vec![0]);
    assert!(sample_order(&vec![], 24).is_empty());
}
