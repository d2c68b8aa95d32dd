use lumen::{checked_feature_reports, feature_reports};

/// Real tail of the Pulsefire Core descriptor: vendor page 0xff01, report id
/// 0x07, 8-bit fields, count 0x0107 = 263, feature.
#[test]
fn finds_the_hyperx_control_report() {
    let desc = [
        0x06, 0x01, 0xff, 0x09, 0x01, 0xa1, 0x01, 0x85, 0x07, 0x15, 0x00, 0x26, 0xff, 0x00,
        0x09, 0x20, 0x75, 0x08, 0x96, 0x07, 0x01, 0xb1, 0x02, 0xc0,
    ];
    assert_eq!(feature_reports(&desc), vec![(0x07, 263)]);
}

/// Real tail of the Cynosa Lite descriptor: vendor page 0xff00, unnumbered
/// report, 8-bit fields, count 0x5a = 90, feature.
#[test]
fn finds_the_razer_control_report() {
    let desc = [
        0x06, 0x00, 0xff, 0x09, 0x02, 0x15, 0x00, 0x25, 0x01, 0x75, 0x08, 0x95, 0x5a, 0xb1,
        0x01, 0xc0,
    ];
    assert_eq!(feature_reports(&desc), vec![(0x00, 90)]);
}

/// The Cynosa Lite's interface 0 is a plain keyboard: no feature reports.
#[test]
fn ignores_interfaces_with_no_feature_report() {
    let desc = [
        0x05, 0x01, 0x09, 0x06, 0xa1, 0x01, 0x05, 0x07, 0x19, 0xe0, 0x29, 0xe7, 0x15, 0x00,
        0x25, 0x01, 0x75, 0x01, 0x95, 0x08, 0x81, 0x02, 0x81, 0x01, 0xc0,
    ];
    assert!(feature_reports(&desc).is_empty());
}

#[test]
fn a_truncated_descriptor_does_not_panic() {
    // Prefix claims a 4-byte payload that is not there.
    assert!(feature_reports(&[0x96, 0x07]).is_empty());
}

#[test]
fn handles_an_empty_descriptor() {
    assert!(feature_reports(&[]).is_empty());
}

#[test]
fn a_partial_bit_count_rounds_up_and_reports_keep_their_order() {
    // report size 3 bits, count 5 -> 15 bits -> 2 bytes; then report id 2,
    // size 8, count 4 -> 4 bytes.
    let desc = [0x75, 0x03, 0x95, 0x05, 0xb1, 0x02, 0x85, 0x02, 0x75, 0x08, 0x95, 0x04, 0xb1, 0x02];
    assert_eq!(feature_reports(&desc), vec![(0x00, 2), (0x02, 4)]);
}

#[test]
fn a_report_found_before_a_truncation_is_kept() {
    let desc = [0x75, 0x08, 0x95, 0x02, 0xb1, 0x02, 0x27, 0x01];
    assert_eq!(feature_reports(&desc), vec![(0x00, 2)]);
}

#[test]
fn an_overflowing_bit_count_is_reported() {
    // report size 0xffffffff, count 2, feature.
    let desc = [0x77, 0xff, 0xff, 0xff, 0xff, 0x95, 0x02, 0xb1, 0x02];
    assert_eq!(checked_feature_reports(&desc), None);
    assert_eq!(checked_feature_reports(&[0x75, 0x08, 0x95, 0x01, 0xb1, 0x02]), Some(vec![(0, 1)]));
}
