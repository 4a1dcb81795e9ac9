use wol_hub::{build_magic_packet, wake_packet, WakeError};

#[test]
fn packet_layout() {
    let mac = [0x01, 0x23, 0x45, 0x67, 0x89, 0xAB];
    let p = build_magic_packet(&mac);
    assert_eq!(p.len(), 102);
    assert_eq!(&p[0..6], &[0xFF; 6]);
    for i in 0..96 {
        assert_eq!(p[6 + i], mac[i % 6]);
    }
}

#[test]
fn packet_of_all_ones_address() {
    let p = build_magic_packet(&[0xFF; 6]);
    assert_eq!(p, vec![0xFF; 102]);
}

#[test]
fn wake_packet_for_valid_text() {
    let p = wake_packet("AA-BB-CC-DD-EE-FF").unwrap();
    assert_eq!(p, build_magic_packet(&[0xAA, 0xBB, 0xCC, 0xDD, 0xEE, 0xFF]));
}

#[test]
fn wake_packet_refuses_bad_text() {
    match wake_packet("AA-BB-CC-DD-EE") {
        Err(WakeError::ParseMac(e)) => {
            assert_eq!(e.message(), "wrong number of groups: 5")
        }
        other => panic!("unexpected: {:?}", other),
    }
}

#[test]
fn wake_twice_gives_same_outcome() {
    let first = wake_packet("12-34-56-78-9A-BC").unwrap();
    let second = wake_packet("12-34-56-78-9A-BC").unwrap();
    assert_eq!(first, second);
    let bad1 = wake_packet("12-34").unwrap_err().message();
    let bad2 = wake_packet("12-34").unwrap_err().message();
    assert_eq!(bad1, bad2);
}

#[test]
fn wake_error_messages() {
    assert_eq!(WakeError::Io("denied".to_string()).message(), "IO error: denied");
    assert_eq!(WakeError::Query("gone".to_string()).message(), "DB error: gone");
    assert_eq!(
        wake_packet("x").unwrap_err().message(),
        "Could not parse MAC address: wrong number of groups: 1"
    );
}
