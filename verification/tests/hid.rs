use lumen::hid::{
    control_report_for, device_paths, open_verdict, present_devices, sorted_unique_paths,
    sorted_usb_ids, InterfaceOutcome, OpenAttempt, OpenVerdict,
};
use lumen::Registry;

#[test]
fn usb_ids_come_back_sorted_and_once() {
    assert_eq!(sorted_usb_ids(&[]), None);
    assert_eq!(
        sorted_usb_ids(&[(0x1532, 0x023F), (0x03F0, 0x0D8F), (0x1532, 0x023F), (0x03F0, 0x0001)]),
        Some(vec![(0x03F0, 0x0001), (0x03F0, 0x0D8F), (0x1532, 0x023F)])
    );
}

#[test]
fn present_devices_follow_registry_order() {
    let r = Registry::builtin().unwrap();
    let here = present_devices(r.all(), &[(0x03F0, 0x0D8F), (0x1234, 0x5678)]);
    assert_eq!(here.len(), 1);
    assert_eq!(here[0].id, "hyperx-pulsefire-core");
    let both = present_devices(r.all(), &[(0x03F0, 0x0D8F), (0x1532, 0x023F)]);
    assert_eq!(both.len(), 2);
    assert_eq!(both[0].id, r.all()[0].id);
    assert!(present_devices(r.all(), &[]).is_empty());
}

#[test]
fn the_control_report_is_the_first_of_the_declared_length() {
    assert_eq!(control_report_for(&[(1, 8), (0, 90), (7, 90)], 90), Some(0));
    assert_eq!(control_report_for(&[(1, 8)], 90), None);
    assert_eq!(control_report_for(&[], 263), None);
}

#[test]
fn a_refusal_blames_the_grant_only_when_it_is_missing() {
    assert_eq!(open_verdict(true, true), OpenVerdict::Permission);
    assert_eq!(open_verdict(true, false), OpenVerdict::NoControlInterface);
    assert_eq!(open_verdict(false, true), OpenVerdict::NoControlInterface);
    assert_eq!(open_verdict(false, false), OpenVerdict::NoControlInterface);
}

#[test]
fn interface_paths_are_sorted_and_deduplicated() {
    let paths = vec![
        ("b".to_string(), 1),
        ("a".to_string(), 2),
        ("b".to_string(), 1),
        ("a".to_string(), 0),
        ("ab".to_string(), 0),
    ];
    assert_eq!(
        sorted_unique_paths(paths),
        vec![
            ("a".to_string(), 0),
            ("a".to_string(), 2),
            ("ab".to_string(), 0),
            ("b".to_string(), 1),
        ]
    );
}

#[test]
fn the_open_search_keeps_what_each_interface_said() {
    let mut a = OpenAttempt::new();
    assert_eq!(a.record(0, InterfaceOutcome::Refused("not permitted".to_string()), 90), None);
    assert_eq!(a.record(1, InterfaceOutcome::NoDescriptor("timeout".to_string()), 90), None);
    assert_eq!(a.record(-1, InterfaceOutcome::Reports(vec![(1, 8)]), 90), None);
    assert!(a.refused_any);
    assert_eq!(
        a.tried_text(),
        "interface 0: cannot open (not permitted)\n  interface 1: no report descriptor (timeout)\n  interface -1: no 90-byte feature report"
    );
    assert_eq!(a.verdict(true), OpenVerdict::Permission);
    assert_eq!(a.verdict(false), OpenVerdict::NoControlInterface);
    assert_eq!(a.record(2, InterfaceOutcome::Reports(vec![(1, 8), (0, 90)]), 90), Some(0));
    assert_eq!(a.tried.len(), 3);
}

#[test]
fn a_search_with_no_refusal_never_blames_the_grant() {
    let mut a = OpenAttempt::new();
    assert_eq!(a.tried_text(), "");
    assert_eq!(a.record(2, InterfaceOutcome::Reports(vec![]), 263), None);
    assert!(!a.refused_any);
    assert_eq!(a.tried_text(), "interface 2: no 263-byte feature report");
    assert_eq!(a.verdict(true), OpenVerdict::NoControlInterface);
}

#[test]
fn only_the_devices_own_paths_are_tried_in_order() {
    let entries = vec![
        (0x1532, 0x023F, "p2".to_string(), 2),
        (0x03F0, 0x0D8F, "m1".to_string(), 1),
        (0x1532, 0x023F, "p0".to_string(), 0),
        (0x1532, 0x023F, "p2".to_string(), 2),
        (0x1532, 0x0001, "x".to_string(), 0),
    ];
    assert_eq!(
        device_paths(entries, 0x1532, 0x023F),
        vec![("p0".to_string(), 0), ("p2".to_string(), 2)]
    );
    assert!(device_paths(Vec::new(), 1, 2).is_empty());
}
