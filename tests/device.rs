use wol_hub::{prepare_for_write, ParseMacError, WolDevice};

fn device(mac: &str, ip: Option<&str>) -> WolDevice {
    WolDevice {
        id: Some(4),
        name: "  desk pc ".to_string(),
        mac: mac.to_string(),
        ip: ip.map(|s| s.to_string()),
    }
}

#[test]
fn normalize_tidies_fields() {
    let d = device(" aa:bb:cc:dd:ee:ff\n", Some(" 10.0.0.5 ")).normalize();
    assert_eq!(d.id, Some(4));
    assert_eq!(d.name, "desk pc");
    assert_eq!(d.mac, "AA-BB-CC-DD-EE-FF");
    assert_eq!(d.ip.as_deref(), Some("10.0.0.5"));
}

#[test]
fn normalize_keeps_missing_ip() {
    let d = device("aa-bb-cc-dd-ee-ff", None).normalize();
    assert_eq!(d.ip, None);
    assert_eq!(d.mac, "AA-BB-CC-DD-EE-FF");
}

#[test]
fn prepare_accepts_colon_text() {
    let d = prepare_for_write(device("0a:0b:0c:0d:0e:0f", None)).unwrap();
    assert_eq!(d.mac, "0A-0B-0C-0D-0E-0F");
}

#[test]
fn prepare_refuses_bad_mac() {
    match prepare_for_write(device("aa:bb:cc", None)) {
        Err(ParseMacError::WrongGroupCount(n)) => assert_eq!(n, 3),
        other => panic!("unexpected: {:?}", other.map(|d| d.mac)),
    }
}
