use wol_hub::{
    collect_statuses, probe_targets, IpAddress, ProbeCandidate, ProbeOutcome, StatusError,
};

#[test]
fn only_records_with_an_address_are_probed() {
    // Record 1 has no IP text and record 3 has IP text that is not an address.
    let devices = vec![
        ProbeCandidate { id: Some(1), ip: None },
        ProbeCandidate { id: Some(2), ip: Some(IpAddress::V4([10, 0, 0, 5])) },
        ProbeCandidate { id: Some(3), ip: None },
    ];
    let targets = probe_targets(&devices).unwrap();
    assert_eq!(targets.len(), 1);
    assert_eq!(targets[0].id, 2);
    assert_eq!(targets[0].token, 2);
    assert!(matches!(targets[0].ip, IpAddress::V4([10, 0, 0, 5])));

    let statuses = collect_statuses(&vec![ProbeOutcome::Finished { id: 2, online: true }]).unwrap();
    assert_eq!(statuses.len(), 1);
    assert_eq!(statuses.get(&2), Some(&true));
    assert!(!statuses.contains_key(&1));
    assert!(!statuses.contains_key(&3));
}

#[test]
fn token_is_low_bits_of_id() {
    let devices = vec![ProbeCandidate { id: Some(70000), ip: Some(IpAddress::V6([0, 0, 0, 0, 0, 0, 0, 1])) }];
    let targets = probe_targets(&devices).unwrap();
    assert_eq!(targets[0].token, (70000 % 65536) as u16);
}

#[test]
fn address_without_id_fails_the_batch() {
    let devices = vec![
        ProbeCandidate { id: Some(1), ip: Some(IpAddress::V4([10, 0, 0, 1])) },
        ProbeCandidate { id: None, ip: Some(IpAddress::V4([10, 0, 0, 2])) },
    ];
    assert!(matches!(probe_targets(&devices), Err(StatusError::JoinSet)));
}

#[test]
fn record_without_id_or_address_is_skipped() {
    let devices = vec![ProbeCandidate { id: None, ip: None }];
    assert!(probe_targets(&devices).unwrap().is_empty());
}

#[test]
fn unreachable_host_does_not_hide_others() {
    let outcomes = vec![
        ProbeOutcome::Finished { id: 1, online: true },
        ProbeOutcome::Finished { id: 2, online: false },
        ProbeOutcome::Finished { id: 3, online: true },
    ];
    let statuses = collect_statuses(&outcomes).unwrap();
    assert_eq!(statuses.len(), 3);
    assert_eq!(statuses.get(&1), Some(&true));
    assert_eq!(statuses.get(&2), Some(&false));
    assert_eq!(statuses.get(&3), Some(&true));
}

#[test]
fn crashed_probe_fails_the_batch() {
    let outcomes = vec![ProbeOutcome::Finished { id: 1, online: true }, ProbeOutcome::Crashed];
    assert!(matches!(collect_statuses(&outcomes), Err(StatusError::JoinSet)));
}

#[test]
fn no_outcomes_give_empty_map() {
    assert!(collect_statuses(&Vec::new()).unwrap().is_empty());
}

#[test]
fn status_error_messages() {
    assert_eq!(StatusError::Query.message(), "DB error");
    assert_eq!(StatusError::Io.message(), "IO error");
    assert_eq!(StatusError::JoinSet.message(), "joinset error");
}
