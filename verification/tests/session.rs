use archinstall_zfs::console_session::{exit_code, frame, frame_length, restored_arguments, MAX_MESSAGE};

#[test]
fn socket_round_trip_and_message_limit() {
    let data = br#"{"target":null,"notice":"Restored"}"#;
    let framed = frame(data).unwrap();
    assert_eq!(&framed[..4], &(data.len() as u32).to_be_bytes());
    assert_eq!(&framed[4..], &data[..]);
    let header = [framed[0], framed[1], framed[2], framed[3]];
    assert_eq!(frame_length(header).unwrap(), data.len());
    assert_eq!(frame_length(20000_u32.to_be_bytes()).unwrap_err(), "Oversized session message");
    assert!(frame(&vec![0u8; MAX_MESSAGE + 1]).is_err());
    assert!(frame(&vec![0u8; MAX_MESSAGE]).is_ok());
}

#[test]
fn a_restored_gui_keeps_only_its_scale() {
    let args: Vec<String> = ["--config", "c.json", "--ui-scale", "1.5", "--secrets", "s", "--ui-scale=2"]
        .iter()
        .map(|s| s.to_string())
        .collect();
    assert_eq!(restored_arguments(&args), vec!["--ui-scale", "1.5", "--ui-scale=2"]);
    assert!(restored_arguments(&vec!["--ui-scale".to_string()]).is_empty());
}

#[test]
fn a_signalled_child_exits_past_128() {
    assert_eq!(exit_code(Some(3), None), 3);
    assert_eq!(exit_code(None, Some(9)), 137);
    assert_eq!(exit_code(None, None), 129);
}
