use lumen::device::{BrightnessMode, DeviceSpec, PowerMode, Registry, RegistryError, UsbIdError};
use lumen::{parse_usb_id, IntErrorKind};

fn one() -> DeviceSpec {
    DeviceSpec {
        id: "test-kb".to_string(),
        name: "Test Keyboard".to_string(),
        vendor: "Test".to_string(),
        kind: "keyboard".to_string(),
        vendor_id: parse_usb_id("0x1532").unwrap(),
        product_id: parse_usb_id("0x023F").unwrap(),
        driver: "razer-extended-matrix".to_string(),
        control_report_len: 90,
        holds_colour: true,
        brightness: BrightnessMode::Native,
        power: PowerMode::Native,
    }
}

#[test]
fn builtin_registry_parses_and_covers_both_devices() {
    let reg = Registry::builtin().expect("builtin registry must parse");
    assert!(reg.by_usb_id(0x1532, 0x023F).is_some(), "Cynosa Lite");
    assert!(reg.by_usb_id(0x03F0, 0x0D8F).is_some(), "Pulsefire Core");
}

#[test]
fn parses_hex_usb_ids() {
    let reg = Registry::from_devices(vec![one()]).unwrap();
    assert_eq!(reg.all()[0].vendor_id, 0x1532);
    assert_eq!(reg.all()[0].product_id, 0x023F);
}

#[test]
fn parses_declared_brightness_and_power_behaviour() {
    let reg = Registry::builtin().unwrap();
    let kb = reg.by_usb_id(0x1532, 0x023F).unwrap();
    assert_eq!(kb.brightness, BrightnessMode::Native);
    assert_eq!(kb.power, PowerMode::Native);

    let mouse = reg.by_usb_id(0x03F0, 0x0D8F).unwrap();
    assert_eq!(mouse.brightness, BrightnessMode::Scaled);
    assert_eq!(mouse.power, PowerMode::ColorBlack);
}

#[test]
fn rejects_usb_id_without_0x_prefix() {
    let err = parse_usb_id("1532").unwrap_err();
    assert_eq!(err, UsbIdError::MissingPrefix("1532".to_string()));
}

#[test]
fn rejects_duplicate_ids() {
    assert!(matches!(
        Registry::from_devices(vec![one(), one()]),
        Err(RegistryError::DuplicateId(_))
    ));
}

#[test]
fn rejects_two_devices_sharing_a_usb_id() {
    let mut other = one();
    other.id = "other-kb".to_string();
    assert!(matches!(
        Registry::from_devices(vec![one(), other]),
        Err(RegistryError::DuplicateUsbId(..))
    ));
}

#[test]
fn resolve_matches_id_kind_and_all_but_only_when_present() {
    let reg = Registry::builtin().unwrap();
    let kb = reg.by_usb_id(0x1532, 0x023F).unwrap();
    let present = vec![kb];

    assert_eq!(reg.resolve("keyboard", &present).len(), 1);
    assert_eq!(reg.resolve("razer-cynosa-lite", &present).len(), 1);
    assert_eq!(reg.resolve("all", &present).len(), 1);
    // The mouse is in the registry but not plugged in, so it never resolves.
    assert_eq!(reg.resolve("mouse", &present).len(), 0);
    assert_eq!(reg.resolve("nonsense", &present).len(), 0);
}

#[test]
fn duplicate_usb_id_error_names_both_devices() {
    let mut other = one();
    other.id = "other-kb".to_string();
    assert_eq!(
        Registry::from_devices(vec![one(), other]).unwrap_err(),
        RegistryError::DuplicateUsbId("test-kb".into(), "other-kb".into(), 0x1532, 0x023F)
    );
    assert_eq!(
        Registry::from_devices(vec![one(), one()]).unwrap_err(),
        RegistryError::DuplicateId("test-kb".into())
    );
}

#[test]
fn usb_ids_accept_upper_case_prefix_and_whitespace() {
    assert_eq!(parse_usb_id(" 0X0d8f ").unwrap(), 0x0D8F);
    assert_eq!(parse_usb_id("0x+ff").unwrap(), 0xFF);
    assert_eq!(
        parse_usb_id("0x10000").unwrap_err(),
        UsbIdError::BadHex("0x10000".into(), IntErrorKind::PosOverflow)
    );
    assert_eq!(parse_usb_id("0x").unwrap_err(), UsbIdError::BadHex("0x".into(), IntErrorKind::Empty));
    assert_eq!(
        parse_usb_id("0x12g4").unwrap_err(),
        UsbIdError::BadHex("0x12g4".into(), IntErrorKind::InvalidDigit)
    );
}

#[test]
fn the_builtin_registry_keeps_ids_apart() {
    let reg = Registry::builtin().unwrap();
    let all = reg.all();
    assert_eq!(all.len(), 2);
    assert_eq!(all[0].id, "razer-cynosa-lite");
    assert_eq!(all[1].id, "hyperx-pulsefire-core");
    assert!(reg.by_usb_id(0x1234, 0x5678).is_none());
    let copy = reg.clone();
    assert_eq!(copy.all(), reg.all());
}
