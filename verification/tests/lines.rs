use lumen::lines::{described, device_line, list_row, packet_lines, sent_line, volatile_note};
use lumen::{Packet, Planned, Rgb};

#[test]
fn list_rows_line_up_in_columns() {
    assert_eq!(
        list_row("ID", "DEVICE", "KIND", "STATUS"),
        format!("{:<24} {:<24} {:<9} STATUS", "ID", "DEVICE", "KIND")
    );
    assert_eq!(
        list_row("razer-cynosa-lite", "Razer Cynosa Lite", "keyboard", "connected"),
        "razer-cynosa-lite        Razer Cynosa Lite        keyboard  connected"
    );
    let long = "an-identifier-longer-than-the-column";
    assert!(list_row(long, "n", "k", "s").starts_with(&format!("{long} n")));
}

#[test]
fn a_plan_is_described_with_its_colour_when_colour_is_on() {
    let p = Planned {
        packets: Vec::new(),
        what: "#ff0000".to_string(),
        shown: Some(Rgb::new(255, 0, 0)),
    };
    assert_eq!(described(&p, false), "#ff0000");
    assert_eq!(described(&p, true), "\x1b[48;2;255;0;0m  \x1b[0m #ff0000");
    let q = Planned {
        packets: Vec::new(),
        what: "brightness 40%".to_string(),
        shown: None,
    };
    assert_eq!(described(&q, true), "brightness 40%");
}

#[test]
fn dry_run_and_sent_lines() {
    assert_eq!(device_line("Razer Cynosa Lite", "off"), "Razer Cynosa Lite -> off");
    let (a, b) = packet_lines(&Packet::new(vec![0x07, 0x0A, 0xff]));
    assert_eq!(a, "  report 0x07, 3 bytes");
    assert_eq!(b, "  07 0a ff");
    assert_eq!(
        sent_line("HyperX Pulsefire Core", "#000000", 1, 0x07),
        "HyperX Pulsefire Core -> #000000 (interface 1, report 0x07)"
    );
}

#[test]
fn the_volatile_note_names_every_device_that_forgets() {
    assert_eq!(volatile_note(&[]), None);
    assert_eq!(
        volatile_note(&["A", "B"]).unwrap(),
        "note: A, B does not latch a colour, so it has already reverted. Re-run with --hold to make it stick."
    );
}
