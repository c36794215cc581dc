use peripheral_ledger::{
    event_hash, marker_value, seal, verify_chain, AlertPolicy, DeviceEvent, EventKind, RiskLevel,
};

#[test]
fn parses_usb_vendor_and_product_without_retaining_secrets() {
    let event = DeviceEvent::from_native(
        1,
        EventKind::Arrived,
        r"\\?\USB#VID_1234&PID_ABCD#SYNTHETIC",
        "usb",
    );
    assert_eq!(event.vendor_id.as_deref(), Some("1234"));
    assert_eq!(event.product_id.as_deref(), Some("ABCD"));
}

#[test]
fn local_pair_rule_produces_explainable_alert() {
    let mut event = DeviceEvent::from_native(
        1,
        EventKind::Arrived,
        r"\\?\USB#VID_1234&PID_ABCD#SYNTHETIC",
        "usb",
    );
    AlertPolicy::new(vec![("1234".into(), "abcd".into())]).evaluate(&mut event);
    assert_eq!(event.risk, RiskLevel::Alert);
    assert!(event.reason.contains("1234:ABCD"));
}

#[test]
fn modified_event_breaks_chain() {
    let first = seal(
        1,
        DeviceEvent::from_native(1, EventKind::Arrived, "device-one", "usb"),
        String::new(),
    );
    let mut second = seal(
        2,
        DeviceEvent::from_native(2, EventKind::Removed, "device-one", "usb"),
        first.hash.clone(),
    );
    assert!(verify_chain(&[first.clone(), second.clone()]));
    second.event.device_path = "changed".into();
    assert!(!verify_chain(&[first, second]));
}

#[test]
fn kind_and_risk_names() {
    assert_eq!(EventKind::Arrived.as_str(), "arrived");
    assert_eq!(EventKind::Removed.as_str(), "removed");
    assert_eq!(EventKind::TopologyChanged.as_str(), "topology_changed");
    assert_eq!(RiskLevel::Informational.as_str(), "informational");
    assert_eq!(RiskLevel::Notice.as_str(), "notice");
    assert_eq!(RiskLevel::Alert.as_str(), "alert");
    assert!(RiskLevel::Informational < RiskLevel::Notice);
    assert!(RiskLevel::Notice < RiskLevel::Alert);
}

#[test]
fn native_event_fields() {
    let event = DeviceEvent::from_native(42, EventKind::Removed, "usb#vid_0a1b&pid_ff0c", "hid");
    assert_eq!(event.occurred_at_ms, 42);
    assert_eq!(event.kind, EventKind::Removed);
    assert_eq!(event.device_path, "usb#vid_0a1b&pid_ff0c");
    assert_eq!(event.interface_class, "hid");
    assert_eq!(event.vendor_id.as_deref(), Some("0A1B"));
    assert_eq!(event.product_id.as_deref(), Some("FF0C"));
    assert_eq!(event.risk, RiskLevel::Informational);
    assert_eq!(event.reason, "native device notification");
}

#[test]
fn native_event_without_ids() {
    let event = DeviceEvent::from_native(0, EventKind::TopologyChanged, "", "");
    assert_eq!(event.vendor_id, None);
    assert_eq!(event.product_id, None);
    let short = DeviceEvent::from_native(0, EventKind::Arrived, "VID_12G4&PID_123", "usb");
    assert_eq!(short.vendor_id, None);
    assert_eq!(short.product_id, None);
}

#[test]
fn marker_value_reads_only_the_first_marker() {
    assert_eq!(marker_value("VID_12&VID_3456", "VID_"), None);
    assert_eq!(marker_value("XVID_3456789", "VID_").as_deref(), Some("3456"));
    assert_eq!(marker_value("VID_", "VID_"), None);
    assert_eq!(marker_value("VID_abcd", "VID_").as_deref(), Some("abcd"));
    assert_eq!(marker_value("\u{e9}VID_00FF\u{e9}", "VID_").as_deref(), Some("00FF"));
    assert_eq!(marker_value("PID_1234", "VID_"), None);
}

#[test]
fn topology_change_gets_a_notice() {
    let mut event = DeviceEvent::from_native(3, EventKind::TopologyChanged, "", "");
    AlertPolicy::default().evaluate(&mut event);
    assert_eq!(event.risk, RiskLevel::Notice);
    assert_eq!(event.reason, "device topology changed without an interface path");
}

#[test]
fn unlisted_pair_stays_informational() {
    let mut event = DeviceEvent::from_native(3, EventKind::Arrived, "VID_1234&PID_ABCD", "usb");
    AlertPolicy::new(vec![("1234".into(), "ABCE".into())]).evaluate(&mut event);
    assert_eq!(event.risk, RiskLevel::Informational);
    assert_eq!(event.reason, "native device notification");
}

#[test]
fn alert_reason_keeps_the_event_ids() {
    let mut event = DeviceEvent::from_native(3, EventKind::Arrived, "", "usb");
    event.vendor_id = Some("abcd".into());
    event.product_id = Some("Ef01".into());
    AlertPolicy::new(vec![("ABCD".into(), "eF01".into())]).evaluate(&mut event);
    assert_eq!(event.risk, RiskLevel::Alert);
    assert_eq!(event.reason, "device pair abcd:Ef01 matches a local alert rule");
}

#[test]
fn alert_rule_wins_over_topology_notice() {
    let mut event = DeviceEvent::from_native(3, EventKind::TopologyChanged, "VID_0001&PID_0002", "");
    AlertPolicy::new(vec![("0001".into(), "0002".into())]).evaluate(&mut event);
    assert_eq!(event.risk, RiskLevel::Alert);
    assert_eq!(event.reason, "device pair 0001:0002 matches a local alert rule");
}

#[test]
fn evaluating_twice_changes_nothing_more() {
    let policy = AlertPolicy::new(vec![("1234".into(), "abcd".into())]);
    let mut event = DeviceEvent::from_native(1, EventKind::Arrived, "VID_1234&PID_ABCD", "usb");
    policy.evaluate(&mut event);
    let once = event.clone();
    policy.evaluate(&mut event);
    assert_eq!(event, once);
}

#[test]
fn seal_hash_is_sha256_of_canonical_json() {
    let sealed = seal(
        1,
        DeviceEvent::from_native(1, EventKind::Arrived, "synthetic", "usb"),
        String::new(),
    );
    assert_eq!(sealed.sequence, 1);
    assert_eq!(sealed.previous_hash, "");
    assert_eq!(
        sealed.hash,
        "6e652e2949555fba8f8f02e35b77e50818fa461a14b94bfc8f305862628075a1"
    );
}

#[test]
fn seal_hash_escapes_json_text() {
    let event = DeviceEvent::from_native(
        1,
        EventKind::Arrived,
        r"\\?\USB#VID_1234&PID_ABCD#SYNTHETIC",
        "usb",
    );
    assert_eq!(
        event_hash(1, &event, ""),
        "155a00dce6d3959cec9792066fa7d5dc209dd969c03e1d571f3d3d2bf92278ed"
    );
}

#[test]
fn empty_and_prefix_chains_verify() {
    assert!(verify_chain(&[]));
    let first = seal(1, DeviceEvent::from_native(1, EventKind::Arrived, "a", "usb"), String::new());
    let second = seal(2, DeviceEvent::from_native(2, EventKind::Removed, "a", "usb"), first.hash.clone());
    let third = seal(3, DeviceEvent::from_native(3, EventKind::Arrived, "b", "usb"), second.hash.clone());
    assert!(verify_chain(&[first.clone(), second.clone(), third.clone()]));
    assert!(verify_chain(&[first.clone(), second.clone()]));
    assert!(!verify_chain(&[second.clone(), third.clone()]));
    assert!(!verify_chain(&[first.clone(), third.clone()]));
}

#[test]
fn chain_rejects_bad_numbering_and_links() {
    let first = seal(1, DeviceEvent::from_native(1, EventKind::Arrived, "a", "usb"), String::new());
    let zero = seal(0, DeviceEvent::from_native(1, EventKind::Arrived, "a", "usb"), String::new());
    assert!(!verify_chain(&[zero]));
    let unlinked = seal(1, DeviceEvent::from_native(1, EventKind::Arrived, "a", "usb"), "x".into());
    assert!(!verify_chain(&[unlinked]));
    let mut forged = first.clone();
    forged.hash = "00".into();
    assert!(!verify_chain(&[forged]));
    let second = seal(2, DeviceEvent::from_native(2, EventKind::Removed, "a", "usb"), first.hash.clone());
    let resealed = seal(1, DeviceEvent::from_native(1, EventKind::Arrived, "z", "usb"), String::new());
    assert!(verify_chain(&[resealed.clone()]));
    assert!(!verify_chain(&[resealed, second]));
}

#[test]
fn cloned_policy_decides_the_same() {
    let policy = AlertPolicy::new(vec![("0001".into(), "0002".into())]);
    let copy = policy.clone();
    let mut a = DeviceEvent::from_native(1, EventKind::Arrived, "vid_0001&pid_0002", "usb");
    let mut b = a.clone();
    policy.evaluate(&mut a);
    copy.evaluate(&mut b);
    assert_eq!(a, b);
    assert_eq!(a.risk, RiskLevel::Alert);
}

#[test]
fn seal_hash_is_sixty_four_lower_hex_digits() {
    let sealed = seal(
        7,
        DeviceEvent::from_native(-5, EventKind::TopologyChanged, "\"q\"\u{1}\n", "c"),
        "prev".into(),
    );
    assert_eq!(sealed.hash.len(), 64);
    assert!(sealed.hash.chars().all(|c| c.is_ascii_digit() || ('a'..='f').contains(&c)));
}

#[test]
fn seal_hash_follows_canonical_json_with_escapes() {
    let mut event = DeviceEvent::from_native(-5, EventKind::Removed, "a\"b\\c\u{1}\u{8}\t\n\u{c}\r\u{1f}é", "cls");
    event.vendor_id = Some(String::new());
    assert_eq!(
        event_hash(i64::MIN, &event, "p"),
        "6333bcbd70e25eef54e5f9e10c0123757a7eacfee9a199e6aded3f7cdf49b0ed"
    );
}
