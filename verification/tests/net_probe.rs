use archinstall_zfs::net_probe::{
    probe_verdict, ProbeBody, ProbeVerdict, CONNECTIVITY_URL, EXPECTED_RESPONSE,
};

fn judged(status: u16, chunks: &[&[u8]]) -> ProbeVerdict {
    let mut body = ProbeBody::new();
    let mut complete = true;
    for chunk in chunks {
        if !body.take_chunk(chunk) {
            complete = false;
            break;
        }
    }
    probe_verdict(status, &body, complete)
}

#[test]
fn accepts_arch_response() {
    assert_eq!(judged(200, &[b"NetworkManager is online\n"]), ProbeVerdict::Online);
    assert_eq!(judged(200, &[b"NetworkManager ", b"is online\n"]), ProbeVerdict::Online);
    assert_eq!(&EXPECTED_RESPONSE, b"NetworkManager is online\n");
    assert_eq!(CONNECTIVITY_URL, "http://ping.archlinux.org/nm-check.txt");
}

#[test]
fn rejects_portals_redirects_and_server_errors() {
    assert_eq!(judged(200, &[b"Login"]), ProbeVerdict::UnexpectedResponse);
    assert_eq!(judged(200, &[b"NetworkManager is online\n!"]), ProbeVerdict::UnexpectedResponse);
    assert_eq!(judged(302, &[]), ProbeVerdict::Status(302));
    assert_eq!(judged(503, &[b"NetworkManager is online\n"]), ProbeVerdict::Status(503));
    assert_eq!(judged(204, &[]), ProbeVerdict::Status(204));
}

#[test]
fn a_long_page_is_not_read_past_the_expected_length() {
    let mut body = ProbeBody::new();
    assert!(body.take_chunk(b"NetworkManager is online"));
    assert!(!body.take_chunk(b"\n<html>"));
    assert!(body.take_chunk(b"\n"));
    assert!(body.is_expected());
}
