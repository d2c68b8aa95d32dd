use lumen::{DeviceSpec, Driver, DriverError, Pulsefire, Registry, Rgb};

fn pulsefire() -> DeviceSpec {
    Registry::builtin()
        .unwrap()
        .by_usb_id(0x03F0, 0x0D8F)
        .expect("Pulsefire Core in registry")
        .clone()
}

/// Golden bytes: this exact buffer lit the mouse red on hardware.
#[test]
fn direct_red_matches_verified_bytes() {
    let packets = Pulsefire.set_color(&pulsefire(), Rgb::new(255, 0, 0)).unwrap();
    assert_eq!(packets.len(), 1);
    let b = &packets[0].bytes;

    assert_eq!(b.len(), 264, "report id byte plus 263 data bytes");
    assert_eq!(&b[..10], &[0x07, 0x0a, 0xff, 0x00, 0x00, 0, 0, 0, 0xa0, 0]);
}

#[test]
fn only_the_documented_offsets_are_ever_set() {
    let b = &Pulsefire.set_color(&pulsefire(), Rgb::new(0x11, 0x22, 0x33)).unwrap()[0].bytes;
    assert_eq!(&b[0x02..0x05], &[0x11, 0x22, 0x33]);
    assert_eq!(b[0x08], 0xa0);
    // Everything past the header must stay zeroed.
    assert!(b[0x09..].iter().all(|x| *x == 0), "unexpected trailing bytes");
    assert_eq!(b[0x05..0x08], [0, 0, 0]);
}

#[test]
fn black_is_a_valid_colour_not_a_special_case() {
    let b = &Pulsefire.set_color(&pulsefire(), Rgb::black()).unwrap()[0].bytes;
    assert_eq!(&b[..10], &[0x07, 0x0a, 0x00, 0x00, 0x00, 0, 0, 0, 0xa0, 0]);
}

#[test]
fn hyperx_rejects_a_device_whose_report_length_disagrees() {
    let mut spec = pulsefire();
    spec.control_report_len = 90;
    assert!(matches!(
        Pulsefire.set_color(&spec, Rgb::new(1, 1, 1)),
        Err(DriverError::ReportLenMismatch { .. })
    ));
}

#[test]
fn brightness_and_power_are_refused_rather_than_faked() {
    assert!(matches!(
        Pulsefire.set_brightness(&pulsefire(), 50),
        Err(DriverError::NoNativeCommand { .. })
    ));
    assert!(matches!(
        Pulsefire.set_power(&pulsefire(), false),
        Err(DriverError::NoNativeCommand { .. })
    ));
}

/// Golden bytes: brightness is reached by scaling the colour, so a dimmed
/// colour is an ordinary direct-colour packet and nothing else.
#[test]
fn a_scaled_colour_is_just_a_direct_colour_packet() {
    let dim = Rgb::new(255, 0, 0).scaled(40);
    assert_eq!(dim, Rgb::new(102, 0, 0));
    let b = &Pulsefire.set_color(&pulsefire(), dim).unwrap()[0].bytes;
    assert_eq!(&b[..10], &[0x07, 0x0a, 0x66, 0x00, 0x00, 0, 0, 0, 0xa0, 0]);
}

#[test]
fn a_refusal_names_the_device_and_the_command() {
    assert_eq!(
        Pulsefire.set_brightness(&pulsefire(), 50).unwrap_err(),
        DriverError::NoNativeCommand {
            device: "hyperx-pulsefire-core".into(),
            command: "brightness".into()
        }
    );
    assert_eq!(
        Pulsefire.set_power(&pulsefire(), true).unwrap_err(),
        DriverError::NoNativeCommand { device: "hyperx-pulsefire-core".into(), command: "power".into() }
    );
    assert_eq!(Pulsefire.control_report_len(), 263);
    assert_eq!(Pulsefire.name(), "hyperx-pulsefire");
}
