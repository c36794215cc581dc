use peripheral_ledger::{
    classify_notification, interface_event, interface_name_units, log_entry, notification_kind_of,
    parse_deny_list, reads_interface,
    parse_kind, parse_risk, seal, seal_next, verify_chain, AlertPolicy, DeviceEvent, EventKind,
    EventRow, NotificationAction, RiskLevel,
};

#[test]
fn stored_names_read_back() {
    assert_eq!(parse_kind("arrived"), Ok(EventKind::Arrived));
    assert_eq!(parse_kind("removed"), Ok(EventKind::Removed));
    assert_eq!(parse_kind("topology_changed"), Ok(EventKind::TopologyChanged));
    assert_eq!(parse_kind("Arrived"), Err("Arrived".to_string()));
    assert_eq!(parse_kind(""), Err(String::new()));
    assert_eq!(parse_risk("informational"), Ok(RiskLevel::Informational));
    assert_eq!(parse_risk("notice"), Ok(RiskLevel::Notice));
    assert_eq!(parse_risk("alert"), Ok(RiskLevel::Alert));
    assert_eq!(parse_risk("alerts"), Err("alerts".to_string()));
    for kind in [EventKind::Arrived, EventKind::Removed, EventKind::TopologyChanged] {
        assert_eq!(parse_kind(kind.as_str()), Ok(kind));
    }
}

#[test]
fn first_append_starts_the_chain() {
    let event = DeviceEvent::from_native(1, EventKind::Arrived, "synthetic-one", "usb");
    let first = seal_next(None, event.clone());
    assert_eq!(first.sequence, 1);
    assert_eq!(first.previous_hash, "");
    assert_eq!(first, seal(1, event, String::new()));
    let second = seal_next(
        Some((first.sequence, first.hash.clone())),
        DeviceEvent::from_native(2, EventKind::Removed, "synthetic-one", "usb"),
    );
    assert_eq!(second.sequence, 2);
    assert_eq!(second.previous_hash, first.hash);
    assert!(verify_chain(&[first, second]));
}

#[test]
fn append_after_given_link() {
    let event = DeviceEvent::from_native(7, EventKind::Arrived, "x", "usb");
    let sealed = seal_next(Some((41, "abc".to_string())), event);
    assert_eq!(sealed.sequence, 42);
    assert_eq!(sealed.previous_hash, "abc");
}

#[test]
fn row_round_trip() {
    let mut event = DeviceEvent::from_native(5, EventKind::Arrived, "VID_1234&PID_ABCD", "usb");
    AlertPolicy::new(vec![("1234".into(), "ABCD".into())]).evaluate(&mut event);
    let sealed = seal(1, event, String::new());
    let row = EventRow::from_sealed(&sealed);
    assert_eq!(row.sequence, 1);
    assert_eq!(row.occurred_at_ms, 5);
    assert_eq!(row.kind, "arrived");
    assert_eq!(row.risk, "alert");
    assert_eq!(row.vendor_id.as_deref(), Some("1234"));
    assert_eq!(row.product_id.as_deref(), Some("ABCD"));
    assert_eq!(row.hash, sealed.hash);
    assert_eq!(row.into_sealed(), Ok(sealed));
}

#[test]
fn row_with_unknown_names_is_refused() {
    let sealed = seal(1, DeviceEvent::from_native(5, EventKind::Removed, "p", "c"), String::new());
    let mut row = EventRow::from_sealed(&sealed);
    row.risk = "severe".into();
    assert_eq!(row.clone().into_sealed(), Err("severe".to_string()));
    row.kind = "lost".into();
    assert_eq!(row.into_sealed(), Err("lost".to_string()));
}

#[test]
fn notification_classes() {
    assert_eq!(classify_notification(0x8000, Some(5)), NotificationAction::Interface(EventKind::Arrived));
    assert_eq!(classify_notification(0x8004, Some(5)), NotificationAction::Interface(EventKind::Removed));
    assert_eq!(classify_notification(0x8000, None), NotificationAction::Bare(EventKind::Arrived));
    assert_eq!(classify_notification(0x0007, Some(5)), NotificationAction::Bare(EventKind::TopologyChanged));
    assert_eq!(classify_notification(0x0007, None), NotificationAction::Bare(EventKind::TopologyChanged));
    assert_eq!(classify_notification(0x8000, Some(2)), NotificationAction::Ignore);
    assert_eq!(classify_notification(0x8001, Some(5)), NotificationAction::Ignore);
}

#[test]
fn interface_name_length() {
    assert_eq!(interface_name_units(28, 28), None);
    assert_eq!(interface_name_units(20, 28), None);
    assert_eq!(interface_name_units(30, 28), Some(1));
    assert_eq!(interface_name_units(35, 28), Some(3));
}

#[test]
fn interface_name_stops_at_zero() {
    let name: Vec<u16> = "usb#VID_1234&PID_5678\0junk".encode_utf16().collect();
    let event = interface_event(9, EventKind::Arrived, &name, "{guid}");
    assert_eq!(event.device_path, "usb#VID_1234&PID_5678");
    assert_eq!(event.interface_class, "{guid}");
    assert_eq!(event.vendor_id.as_deref(), Some("1234"));
    assert_eq!(event.product_id.as_deref(), Some("5678"));
    let unterminated: Vec<u16> = vec![0x61, 0xD800, 0x62];
    let lossy = interface_event(9, EventKind::Removed, &unterminated, "");
    assert_eq!(lossy.device_path, "a\u{FFFD}b");
}

#[test]
fn log_entries() {
    let mut event = DeviceEvent::from_native(1, EventKind::Arrived, "dev", "usb");
    let info = log_entry(&event);
    assert!(!info.warning);
    assert_eq!(info.text, "arrived dev informational (native device notification)");
    event.risk = RiskLevel::Notice;
    assert!(log_entry(&event).warning);
    event.risk = RiskLevel::Alert;
    event.reason = "r".into();
    let alert = log_entry(&event);
    assert!(alert.warning);
    assert_eq!(alert.text, "arrived dev alert (r)");
}

#[test]
fn deny_list_text() {
    assert_eq!(
        parse_deny_list("1234:abcd, 5678 : EF01"),
        vec![
            ("1234".to_string(), "abcd".to_string()),
            ("5678".to_string(), "EF01".to_string())
        ]
    );
    assert_eq!(parse_deny_list(""), Vec::<(String, String)>::new());
    assert_eq!(parse_deny_list("nocolon,,"), Vec::<(String, String)>::new());
    assert_eq!(parse_deny_list("a:b:c"), vec![("a".to_string(), "b:c".to_string())]);
    assert_eq!(parse_deny_list(" : ,x:"), vec![(String::new(), String::new()), ("x".to_string(), String::new())]);
    assert_eq!(parse_deny_list("\t1:2\n"), vec![("1".to_string(), "2".to_string())]);
}

#[test]
fn deny_list_from_service_configuration() {
    let pairs = parse_deny_list(" 1234:abcd ,bogus,5678:EF01:99");
    assert_eq!(
        pairs,
        vec![
            ("1234".to_string(), "abcd".to_string()),
            ("5678".to_string(), "EF01:99".to_string())
        ]
    );
    let mut event = DeviceEvent::from_native(1, EventKind::Arrived, "VID_1234&PID_ABCD", "usb");
    AlertPolicy::new(pairs).evaluate(&mut event);
    assert_eq!(event.risk, RiskLevel::Alert);
    assert_eq!(parse_deny_list("\u{3000}a:b\u{a0}"), vec![("a".to_string(), "b".to_string())]);
}

#[test]
fn interface_name_with_surrogate_pair() {
    let name: Vec<u16> = vec![0x61, 0xD83D, 0xDE00, 0xDC00, 0x62, 0];
    let event = interface_event(1, EventKind::Arrived, &name, "");
    assert_eq!(event.device_path, "a\u{1F600}\u{FFFD}b");
}

#[test]
fn notification_kinds() {
    assert_eq!(notification_kind_of(0x8000), Some(EventKind::Arrived));
    assert_eq!(notification_kind_of(0x8004), Some(EventKind::Removed));
    assert_eq!(notification_kind_of(0x0007), Some(EventKind::TopologyChanged));
    assert_eq!(notification_kind_of(0x0018), None);
    assert!(reads_interface(EventKind::Arrived));
    assert!(!reads_interface(EventKind::TopologyChanged));
}
