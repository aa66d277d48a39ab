use archinstall_zfs::controllers::wifi::parse_ipv4_from_ip_addr;
use archinstall_zfs::wifi::{
    canned_networks, connect_start, nm_credentials, signal_to_percent, ConnectStart, Security, StationState,
    WifiError, WifiNetwork,
};
use archinstall_zfs::wifi_cli::{parse_get_networks, split_columns, strip_ansi};
use archinstall_zfs::wifi_listing::{Listing, NETWORK_MEMORY_SECS};
use archinstall_zfs::wifi_mock::MockWifi;
use archinstall_zfs::wifi_retry::{
    AfterFailure, ConnectAttempts, IwdConnectFailure, NmConnectFailure, CONNECT_ATTEMPTS,
};

const SAMPLE_OUTPUT: &str = "\
                              Available networks
────────────────────────────────────────────────────────────────────────────
      Network name                    Security            Signal
────────────────────────────────────────────────────────────────────────────
  > * HomeNetwork                     psk                 ****
      OtherNet                        psk                 ***
      FreeWifi                        open                **
      WeakSignal                      psk                 *
";

#[test]
fn test_parse_get_networks() {
    let networks = parse_get_networks(SAMPLE_OUTPUT);
    assert_eq!(networks.len(), 4);

    assert_eq!(networks[0].ssid, "HomeNetwork");
    assert_eq!(networks[0].security, "psk");
    assert_eq!(networks[0].signal_percent, 100);

    assert_eq!(networks[1].ssid, "OtherNet");
    assert_eq!(networks[1].signal_percent, 75);

    assert_eq!(networks[2].ssid, "FreeWifi");
    assert_eq!(networks[2].security, "open");
    assert_eq!(networks[2].signal_percent, 50);

    assert_eq!(networks[3].ssid, "WeakSignal");
    assert_eq!(networks[3].signal_percent, 25);
}

#[test]
fn test_parse_empty_output() {
    assert!(parse_get_networks("").is_empty());
    assert!(parse_get_networks("No networks available\n").is_empty());
}

#[test]
fn test_strip_ansi() {
    assert_eq!(strip_ansi("\x1b[1;32mHello\x1b[0m"), "Hello");
    assert_eq!(strip_ansi("plain"), "plain");
}

#[test]
fn test_split_columns() {
    let parts = split_columns("HomeNetwork                     psk                 ****");
    assert_eq!(parts[0], "HomeNetwork");
    assert_eq!(parts[1], "psk");
    assert_eq!(parts[2], "****");
}

#[test]
fn iwd_test_signal_to_percent_strong() {
    assert_eq!(signal_to_percent(-4000), 100);
    assert_eq!(signal_to_percent(-5000), 100);
}

#[test]
fn iwd_test_signal_to_percent_weak() {
    assert_eq!(signal_to_percent(-10000), 0);
    assert_eq!(signal_to_percent(-11000), 0);
}

#[test]
fn iwd_test_signal_to_percent_mid() {
    assert_eq!(signal_to_percent(-7500), 50);
    assert_eq!(signal_to_percent(-6000), 80);
    assert_eq!(signal_to_percent(-9000), 20);
}

#[test]
fn mod_test_signal_to_percent_strong() {
    assert_eq!(signal_to_percent(-4000), 100);
    assert_eq!(signal_to_percent(-5000), 100);
}

#[test]
fn mod_test_signal_to_percent_weak() {
    assert_eq!(signal_to_percent(-10000), 0);
    assert_eq!(signal_to_percent(-11000), 0);
}

#[test]
fn mod_test_signal_to_percent_mid() {
    assert_eq!(signal_to_percent(-7500), 50);
    assert_eq!(signal_to_percent(-6000), 80);
    assert_eq!(signal_to_percent(-9000), 20);
}

#[test]
fn signal_rounds_toward_zero_between_whole_dbm() {
    assert_eq!(signal_to_percent(-7599), 50);
    assert_eq!(signal_to_percent(0), 100);
    assert_eq!(signal_to_percent(i16::MIN), 0);
}

#[test]
fn only_wep_and_psk_ask_for_a_passphrase() {
    assert!(Security::Psk.requires_passphrase());
    assert!(Security::Wep.requires_passphrase());
    assert!(!Security::Open.requires_passphrase());
    assert!(!Security::Enterprise.requires_passphrase());
}

#[test]
fn the_offline_listing_marks_saved_networks() {
    let networks = canned_networks(&vec!["CoffeeShop".to_string()]);
    assert!(!networks.is_empty());
    for n in &networks {
        let expected = n.ssid == "HomeNetwork" || n.ssid == "CoffeeShop";
        assert_eq!(n.known, expected, "{}", n.ssid);
    }
}

#[test]
fn parse_ipv4_basic() {
    let sample = "\
2: enp0s25: <BROADCAST,MULTICAST,UP,LOWER_UP> mtu 1500 qdisc fq_codel state UP
    inet 192.168.1.42/24 brd 192.168.1.255 scope global dynamic enp0s25
       valid_lft 85000sec preferred_lft 85000sec
";
    assert_eq!(
        parse_ipv4_from_ip_addr(sample).as_deref(),
        Some("192.168.1.42")
    );
}

#[test]
fn parse_ipv4_skips_loopback() {
    let sample = "\
1: lo: <LOOPBACK,UP,LOWER_UP> mtu 65536 qdisc noqueue state UNKNOWN
    inet 127.0.0.1/8 scope host lo
";
    assert_eq!(parse_ipv4_from_ip_addr(sample), None);
}

#[test]
fn parse_ipv4_no_inet() {
    assert_eq!(parse_ipv4_from_ip_addr(""), None);
    assert_eq!(parse_ipv4_from_ip_addr("no inet here\n"), None);
}

#[test]
fn parse_ipv4_takes_the_first_address_after_loopback() {
    let sample = "    inet 127.0.0.1/8 scope host lo\n    inet 10.0.0.7 scope global eth0\n    inet 10.0.0.8/8\n";
    assert_eq!(parse_ipv4_from_ip_addr(sample).as_deref(), Some("10.0.0.7"));
}

fn net(ssid: &str, signal: u8) -> WifiNetwork {
    WifiNetwork {
        ssid: ssid.to_string(),
        signal_percent: signal,
        security: Security::Psk,
        known: false,
    }
}

#[test]
fn a_network_seen_twice_keeps_its_best_reading() {
    let mut listing = Listing::new();
    listing.add(vec![net("a", 40), net("b", 70)], 1);
    listing.add(vec![net("a", 90), net("b", 20)], 2);
    assert_eq!(listing.len(), 2);
    let networks = listing.clone_networks();
    assert_eq!(networks[0].ssid, "a");
    assert_eq!(networks[0].signal_percent, 90);
    assert_eq!(networks[1].ssid, "b");
    assert_eq!(networks[1].signal_percent, 70);
}

#[test]
fn listings_are_strongest_first_then_by_name() {
    let mut listing = Listing::new();
    listing.add(vec![net("zeta", 50), net("alpha", 50), net("mid", 80)], 1);
    let names: Vec<String> = listing.clone_networks().into_iter().map(|n| n.ssid).collect();
    assert_eq!(names, vec!["mid", "alpha", "zeta"]);
}

#[test]
fn recent_networks_of_an_earlier_listing_are_carried_over() {
    let mut earlier = Listing::new();
    earlier.add(vec![net("old", 30), net("both", 10)], 100);
    let mut stale = Listing::new();
    stale.add(vec![net("gone", 99)], 1);

    let mut now = Listing::new();
    now.add(vec![net("both", 60)], 200);
    now.carried_over(&earlier, 200);
    now.carried_over(&stale, 200);

    let networks = now.clone_networks();
    let names: Vec<&str> = networks.iter().map(|n| n.ssid.as_str()).collect();
    assert_eq!(names, vec!["both", "old"]);
    assert_eq!(networks[0].signal_percent, 60, "what this listing saw stays");
    assert!(!now.is_empty());
}

#[test]
fn retry_only_failures_another_attempt_could_fix() {
    assert!(IwdConnectFailure::Failed.worth_another_attempt());
    assert!(IwdConnectFailure::Aborted.worth_another_attempt());
    assert!(IwdConnectFailure::Busy.worth_another_attempt());
    assert!(IwdConnectFailure::InProgress.worth_another_attempt());
    assert!(!IwdConnectFailure::Other.worth_another_attempt());
    assert!(NmConnectFailure::NotFound.worth_another_attempt());
    assert!(NmConnectFailure::Timeout.worth_another_attempt());
    assert!(NmConnectFailure::SupplicantTimeout.worth_another_attempt());
    assert!(NmConnectFailure::SupplicantConfigFailed.worth_another_attempt());
    assert!(NmConnectFailure::Stuck.worth_another_attempt());
    assert!(!NmConnectFailure::Other.worth_another_attempt());
}

#[test]
fn connection_gets_three_attempts_at_most() {
    let mut attempts = ConnectAttempts::new();
    assert_eq!(attempts.attempt(), 1);
    assert_eq!(attempts.on_failure(true), AfterFailure::TryAgain);
    assert_eq!(attempts.attempt(), 2);
    assert_eq!(attempts.on_failure(true), AfterFailure::TryAgain);
    assert_eq!(attempts.attempt(), 3);
    assert_eq!(attempts.attempt(), CONNECT_ATTEMPTS);
    assert_eq!(attempts.on_failure(true), AfterFailure::GiveUp);
    assert_eq!(attempts.attempt(), 3);
}

#[test]
fn unfixable_failure_gives_up_at_once() {
    let mut attempts = ConnectAttempts::new();
    assert_eq!(attempts.on_failure(false), AfterFailure::GiveUp);
    assert_eq!(attempts.attempt(), 1);
}

#[test]
fn the_mock_round_trips_connect_and_disconnect() {
    let mut wifi = MockWifi::new();
    assert_eq!(wifi.station_state(), StationState::Disconnected);
    assert_eq!(wifi.connect("CoffeeShop", None), Ok(()));
    assert_eq!(wifi.current_ssid().as_deref(), Some("CoffeeShop"));
    assert!(wifi.check_connected());
    wifi.disconnect();
    assert_eq!(wifi.current_ssid(), None);
    assert_eq!(wifi.station_state(), StationState::Disconnected);
}

#[test]
fn the_mock_asks_for_a_passphrase_only_where_it_must() {
    let mut wifi = MockWifi::new();
    assert_eq!(wifi.connect("HomeNetwork", None), Ok(()));
    assert_eq!(
        wifi.connect("Neighbour 5G", None),
        Err(WifiError::PassphraseRequired("Neighbour 5G".into()))
    );
    assert_eq!(
        wifi.connect("Neighbour 5G", Some("")),
        Err(WifiError::PassphraseRequired("Neighbour 5G".into()))
    );
    assert_eq!(wifi.current_ssid().as_deref(), Some("HomeNetwork"));
    assert_eq!(wifi.connect("Neighbour 5G", Some("anything")), Ok(()));
    // Saved now: no passphrase needed the next time.
    assert_eq!(wifi.connect("Neighbour 5G", None), Ok(()));
    assert_eq!(
        wifi.connect("CorpNet", Some("secret")),
        Err(WifiError::ConnectFailed(
            "Enterprise networks are not supported by the mock backend".into()
        ))
    );
    assert_eq!(wifi.connect("Nowhere", Some("x")), Err(WifiError::NetworkNotFound("Nowhere".into())));
    assert_eq!(wifi.current_ssid().as_deref(), Some("Neighbour 5G"));
}

#[test]
fn the_mock_lists_and_forgets_saved_networks() {
    let mut wifi = MockWifi::new();
    let names = |w: &MockWifi| w.list_known_networks().into_iter().map(|k| k.ssid).collect::<Vec<_>>();
    assert_eq!(names(&wifi), vec!["HomeNetwork"]);
    assert_eq!(wifi.connect_hidden("Secret", None), Err(WifiError::PassphraseRequired("Secret".into())));
    assert_eq!(wifi.connect_hidden("Secret", Some("pw")), Ok(()));
    assert_eq!(wifi.connect("DistantAP", Some("pw")), Ok(()));
    assert_eq!(wifi.connect("HomeNetwork", None), Ok(()));
    assert_eq!(names(&wifi), vec!["DistantAP", "HomeNetwork", "Secret"]);
    assert!(wifi.list_known_networks().iter().all(|k| k.security == Security::Psk && !k.hidden));
    let scan = wifi.scan_networks();
    assert!(scan.iter().any(|n| n.ssid == "DistantAP" && n.known));
    assert!(scan.iter().any(|n| n.ssid == "CoffeeShop" && !n.known));
    wifi.forget_network("DistantAP");
    assert_eq!(names(&wifi), vec!["HomeNetwork", "Secret"]);
    assert_eq!(wifi.current_ssid().as_deref(), Some("HomeNetwork"));
    wifi.forget_network("HomeNetwork");
    assert_eq!(wifi.current_ssid(), None);
    assert_eq!(names(&wifi), vec!["HomeNetwork", "Secret"]);
}

#[test]
fn security_flags_fold_into_four_cases() {
    assert_eq!(Security::from_flags(false, false), Security::Open);
    assert_eq!(Security::from_flags(false, true), Security::Open);
    assert_eq!(Security::from_flags(true, true), Security::Enterprise);
    assert_eq!(Security::from_flags(true, false), Security::Psk);
}

#[test]
fn saved_and_connected_networks_do_not_require_a_new_password() {
    assert_eq!(connect_start(true, Security::Psk, false, false), ConnectStart::AlreadyConnected);
    assert_eq!(connect_start(false, Security::Psk, false, true), ConnectStart::Connect);
    assert_eq!(connect_start(false, Security::Psk, false, false), ConnectStart::PassphraseRequired);
    assert_eq!(connect_start(false, Security::Wep, true, false), ConnectStart::Connect);
    assert_eq!(connect_start(false, Security::Open, false, false), ConnectStart::Connect);
    assert_eq!(connect_start(false, Security::Enterprise, false, false), ConnectStart::Connect);
}

#[test]
fn network_manager_gets_a_passphrase_only_for_secured_networks() {
    assert_eq!(nm_credentials("Cafe", Security::Open, Some("x".into())), Ok(None));
    assert_eq!(nm_credentials("Home", Security::Psk, Some("pw".into())), Ok(Some("pw".to_string())));
    assert_eq!(
        nm_credentials("Home", Security::Psk, Some(String::new())),
        Err(WifiError::PassphraseRequired("Home".into()))
    );
    assert_eq!(nm_credentials("Home", Security::Wep, None), Err(WifiError::PassphraseRequired("Home".into())));
    assert_eq!(
        nm_credentials("Corp", Security::Enterprise, Some("pw".into())),
        Err(WifiError::ConnectFailed(
            "Enterprise (802.1x) networks are not supported by the installer".into()
        ))
    );
}

#[test]
fn networks_are_remembered_for_two_minutes() {
    assert_eq!(NETWORK_MEMORY_SECS, 120);
    let mut earlier = Listing::new();
    earlier.add(vec![net("kept", 30)], 1000);
    let mut now = Listing::new();
    now.carried_over(&earlier, 1119);
    assert_eq!(now.clone_networks().len(), 1);
    let mut later = Listing::new();
    later.carried_over(&earlier, 1120);
    assert!(later.is_empty());
}
