use lumen::{DeviceSpec, Driver, DriverError, ExtendedMatrix, Registry, Rgb};

fn cynosa() -> DeviceSpec {
    Registry::builtin()
        .unwrap()
        .by_usb_id(0x1532, 0x023F)
        .expect("Cynosa Lite in registry")
        .clone()
}

/// Golden bytes: this exact buffer turned the keyboard red on hardware.
#[test]
fn static_red_matches_verified_bytes() {
    let packets = ExtendedMatrix.set_color(&cynosa(), Rgb::new(255, 0, 0)).unwrap();
    assert_eq!(packets.len(), 1);
    let b = &packets[0].bytes;

    assert_eq!(b.len(), 91, "report id byte plus 90-byte body");
    assert_eq!(b[0], 0x00, "unnumbered report");
    // Header: status, transaction id, remaining, protocol, size, class, command.
    assert_eq!(&b[1..9], &[0x00, 0x3f, 0x00, 0x00, 0x00, 0x09, 0x0f, 0x02]);
    // Arguments, ending in the colour.
    assert_eq!(&b[9..18], &[0x01, 0x05, 0x01, 0x00, 0x00, 0x01, 0xff, 0x00, 0x00]);
    assert_eq!(b[90], 0x00, "reserved");
}

#[test]
fn checksum_is_xor_of_body_bytes_2_to_88() {
    for colour in [Rgb::new(255, 0, 0), Rgb::new(0, 255, 0), Rgb::new(1, 2, 3)] {
        let p = ExtendedMatrix.set_color(&cynosa(), colour).unwrap();
        let body = &p[0].bytes[1..];
        let expected = body[2..88].iter().fold(0u8, |crc, b| crc ^ b);
        assert_eq!(body[88], expected, "crc wrong for {}", colour.to_string());
    }
}

#[test]
fn colour_lands_in_the_last_three_argument_bytes() {
    let p = ExtendedMatrix.set_color(&cynosa(), Rgb::new(0x12, 0x34, 0x56)).unwrap();
    assert_eq!(&p[0].bytes[15..18], &[0x12, 0x34, 0x56]);
}

/// Golden bytes: brightness is class 0x0f command 0x04, data size 3,
/// arguments VARSTORE, backlight, level on a 0-255 scale.
#[test]
fn full_brightness_matches_the_documented_command() {
    let packets = ExtendedMatrix.set_brightness(&cynosa(), 100).unwrap();
    assert_eq!(packets.len(), 1);
    let b = &packets[0].bytes;

    assert_eq!(b.len(), 91, "report id byte plus 90-byte body");
    assert_eq!(b[0], 0x00, "unnumbered report");
    assert_eq!(&b[1..9], &[0x00, 0x3f, 0x00, 0x00, 0x00, 0x03, 0x0f, 0x04]);
    assert_eq!(&b[9..12], &[0x01, 0x05, 0xff]);
    assert!(b[12..89].iter().all(|x| *x == 0), "arguments must end there");
    assert_eq!(b[89], b[3..89].iter().fold(0u8, |crc, x| crc ^ x), "crc");
    assert_eq!(b[90], 0x00, "reserved");
}

#[test]
fn brightness_percent_maps_onto_the_protocol_0_255_scale() {
    let level_byte = |pct| ExtendedMatrix.set_brightness(&cynosa(), pct).unwrap()[0].bytes[11];
    assert_eq!(level_byte(0), 0x00);
    assert_eq!(level_byte(50), 0x80, "127.5 rounds up");
    assert_eq!(level_byte(100), 0xff);
    // Out of range is clamped rather than wrapping round to a dim value.
    assert_eq!(level_byte(200), 0xff);
}

/// Golden bytes: the "none" effect. Data size is 6 even though only three
/// argument bytes carry meaning.
#[test]
fn off_matches_the_documented_none_effect() {
    let packets = ExtendedMatrix.set_power(&cynosa(), false).unwrap();
    assert_eq!(packets.len(), 1);
    let b = &packets[0].bytes;

    assert_eq!(b.len(), 91);
    assert_eq!(b[0], 0x00, "unnumbered report");
    assert_eq!(&b[1..9], &[0x00, 0x3f, 0x00, 0x00, 0x00, 0x06, 0x0f, 0x02]);
    assert_eq!(&b[9..15], &[0x01, 0x05, 0x00, 0x00, 0x00, 0x00]);
    assert_eq!(b[89], b[3..89].iter().fold(0u8, |crc, x| crc ^ x), "crc");
    assert_eq!(b[90], 0x00, "reserved");
}

/// Off is its own command, not the colour black.
#[test]
fn off_is_not_the_same_packet_as_the_colour_black() {
    let off = ExtendedMatrix.set_power(&cynosa(), false).unwrap();
    let black = ExtendedMatrix.set_color(&cynosa(), Rgb::black()).unwrap();
    assert_ne!(off[0].bytes, black[0].bytes);
}

/// The protocol has no "on", so lumen restores a known state: static white,
/// then full brightness so a previous brightness of 0 cannot hide it.
#[test]
fn on_reapplies_static_white_at_full_brightness() {
    let packets = ExtendedMatrix.set_power(&cynosa(), true).unwrap();
    assert_eq!(packets.len(), 2);
    assert_eq!(
        packets[0].bytes,
        ExtendedMatrix.set_color(&cynosa(), Rgb::white()).unwrap()[0].bytes
    );
    assert_eq!(
        packets[1].bytes,
        ExtendedMatrix.set_brightness(&cynosa(), 100).unwrap()[0].bytes
    );
}

#[test]
fn razer_rejects_a_device_whose_report_length_disagrees() {
    let mut spec = cynosa();
    spec.control_report_len = 264;
    assert!(matches!(
        ExtendedMatrix.set_color(&spec, Rgb::new(1, 1, 1)),
        Err(DriverError::ReportLenMismatch { .. })
    ));
    assert!(matches!(
        ExtendedMatrix.set_brightness(&spec, 50),
        Err(DriverError::ReportLenMismatch { .. })
    ));
    assert!(matches!(
        ExtendedMatrix.set_power(&spec, false),
        Err(DriverError::ReportLenMismatch { .. })
    ));
}

#[test]
fn a_length_mismatch_names_the_device_and_both_lengths() {
    let mut spec = cynosa();
    spec.control_report_len = 264;
    assert_eq!(
        ExtendedMatrix.check(&spec).unwrap_err(),
        DriverError::ReportLenMismatch {
            device: "razer-cynosa-lite".into(),
            driver: "razer-extended-matrix".into(),
            expected: 90,
            actual: 264,
        }
    );
    assert!(ExtendedMatrix.check(&cynosa()).is_ok());
    assert_eq!(ExtendedMatrix.control_report_len(), 90);
    assert_eq!(ExtendedMatrix.name(), "razer-extended-matrix");
}

#[test]
fn brightness_byte_rounds_to_nearest() {
    assert_eq!(ExtendedMatrix::brightness_byte(1), 3); // 2.55 -> 3
    assert_eq!(ExtendedMatrix::brightness_byte(40), 102);
    assert_eq!(ExtendedMatrix::brightness_byte(101), 255);
}

#[test]
fn report_checksums_arbitrary_arguments() {
    let body = ExtendedMatrix::report(0x0f, 0x02, &[0xaa, 0x55, 0x01]);
    assert_eq!(body.len(), 90);
    assert_eq!(body[5], 3);
    assert_eq!(body[1], 0x3f);
    assert_eq!(body[88], 3 ^ 0x0f ^ 0x02 ^ 0xaa ^ 0x55 ^ 0x01);
}
