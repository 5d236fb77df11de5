use vigil::protocol::{message_length, read_message, write_message, ShutdownAction, MAX_MESSAGE};

#[test]
fn messages_carry_their_length() {
    let payload = b"{\"Status\":{\"service\":\"sshd\"}}".to_vec();
    let frame = write_message(&payload);
    assert_eq!(&frame[..4], &[payload.len() as u8, 0, 0, 0]);
    assert_eq!(&frame[4..], &payload[..]);
    assert_eq!(write_message(&vec![]), vec![0, 0, 0, 0]);
    assert_eq!(&write_message(&vec![0; 0x12345])[..4], &[0x45, 0x23, 0x01, 0x00]);
}

#[test]
fn messages_are_read_back() {
    let payload: Vec<u8> = (0..1000).map(|i| (i % 251) as u8).collect();
    let mut stream = write_message(&payload);
    stream.extend_from_slice(b"next");
    assert_eq!(read_message(&stream), Ok(payload));
    let largest = vec![7u8; MAX_MESSAGE];
    assert_eq!(read_message(&write_message(&largest)), Ok(largest));
}

#[test]
fn long_and_short_messages_are_refused() {
    assert_eq!(
        read_message(&write_message(&vec![0; MAX_MESSAGE + 1])),
        Err("message too large: 1048577 bytes".to_string())
    );
    assert_eq!(
        message_length(&[0xff, 0xff, 0xff, 0xff]),
        Err("message too large: 4294967295 bytes".to_string())
    );
    assert_eq!(message_length(&[0, 0, 0x10, 0]), Ok(MAX_MESSAGE));
    assert_eq!(read_message(&vec![1, 0, 0]), Err("failed to fill whole buffer".to_string()));
    assert_eq!(read_message(&vec![2, 0, 0, 0, 9]), Err("failed to fill whole buffer".to_string()));
}

#[test]
fn shutdown_actions_have_names() {
    assert_eq!(ShutdownAction::Poweroff.as_str(), "Poweroff");
    assert_eq!(ShutdownAction::Reboot.as_str(), "Reboot");
    assert_eq!(ShutdownAction::Halt.as_str(), "Halt");
}
