use lumen::probe::{describe, first_occurrences, group_devices, header_line, interface_line};
use lumen::{ProbedDevice, ProbedInterface, Registry, ScanEntry};

fn iface(n: i32, reports: Vec<(u8, u32)>) -> ProbedInterface {
    ProbedInterface {
        interface: n,
        feature_reports: reports,
        error: None,
    }
}

fn device(vid: u16, pid: u16, manufacturer: &str, product: &str) -> ProbedDevice {
    ProbedDevice {
        vendor_id: vid,
        product_id: pid,
        product: product.to_string(),
        manufacturer: manufacturer.to_string(),
        interfaces: Vec::new(),
    }
}

#[test]
fn a_device_is_described_by_its_maker_and_product() {
    assert_eq!(describe(&device(1, 2, "Razer", "Cynosa Lite")), "Razer Cynosa Lite");
    assert_eq!(describe(&device(1, 2, "", "Mouse")), "Mouse");
    assert_eq!(describe(&device(1, 2, " ", "")), "unnamed device");
}

#[test]
fn interface_lines_list_reports_or_say_why_not() {
    assert_eq!(
        interface_line(&iface(0, vec![(0, 90), (5, 8)])),
        "  interface 0: feature report 0x00, 90 data bytes; feature report 0x05, 8 data bytes"
    );
    assert_eq!(
        interface_line(&iface(-1, vec![])),
        "  no interface number: no feature reports"
    );
    let mut broken = iface(2, vec![]);
    broken.error = Some("not permitted".to_string());
    assert_eq!(interface_line(&broken), "  interface 2: unreadable (not permitted)");
}

#[test]
fn headers_say_whether_the_registry_knows_the_device() {
    let r = Registry::builtin().unwrap();
    assert_eq!(
        header_line(&device(0x1532, 0x023F, "Razer", "Cynosa Lite"), &r),
        "1532:023f  Razer Cynosa Lite  -- in the registry as `razer-cynosa-lite`, driver `razer-extended-matrix`"
    );
    assert_eq!(
        header_line(&device(0x046d, 0xc52b, "Logitech", "Receiver"), &r),
        "046d:c52b  Logitech Receiver  -- not in the registry"
    );
}

#[test]
fn repeated_paths_are_read_once() {
    let paths: Vec<String> = ["a", "b", "a", "c", "b"].iter().map(|s| s.to_string()).collect();
    assert_eq!(first_occurrences(&paths), vec![true, true, false, true, false]);
}

fn entry(vid: u16, pid: u16, name: &str, n: i32) -> ScanEntry {
    ScanEntry {
        vendor_id: vid,
        product_id: pid,
        product: name.to_string(),
        manufacturer: String::new(),
        interface: iface(n, vec![]),
    }
}

#[test]
fn entries_group_by_usb_id_with_interfaces_in_order() {
    assert!(group_devices(Vec::new()).is_none());
    let devices = group_devices(vec![
        entry(0x1532, 0x023F, "kb", 2),
        entry(0x03F0, 0x0D8F, "mouse", 1),
        entry(0x1532, 0x023F, "kb again", 0),
        entry(0x03F0, 0x0D8F, "mouse", 0),
    ])
    .unwrap();
    assert_eq!(devices.len(), 2);
    assert_eq!(devices[0].vendor_id, 0x03F0);
    assert_eq!(devices[1].product, "kb");
    let numbers: Vec<i32> = devices[1].interfaces.iter().map(|i| i.interface).collect();
    assert_eq!(numbers, vec![0, 2]);
}

#[test]
fn an_id_as_probe_prints_it_reads_back_in_the_registry() {
    let r = Registry::builtin().unwrap();
    let line = header_line(&device(0x03F0, 0x0D8F, "HP", "Pulsefire"), &r);
    let vid = &line[0..4];
    let pid = &line[5..9];
    assert_eq!(lumen::parse_usb_id(&format!("0x{vid}")), Ok(0x03F0));
    assert_eq!(lumen::parse_usb_id(&format!("0x{pid}")), Ok(0x0D8F));
}
