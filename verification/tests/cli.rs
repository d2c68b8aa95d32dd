use lumen::{
    driver_for, plan, plan_targets, Action, BrightnessMode, DeviceSpec, DriverError, Packet,
    Registry, Rgb, SetError,
};

fn spec(usb: (u16, u16)) -> DeviceSpec {
    Registry::builtin()
        .unwrap()
        .by_usb_id(usb.0, usb.1)
        .expect("device in registry")
        .clone()
}

fn packets(usb: (u16, u16), action: Action) -> (Vec<Packet>, String) {
    let spec = spec(usb);
    let driver = driver_for(&spec.driver).unwrap();
    let planned = plan(&driver, &spec, action).unwrap();
    (planned.packets, planned.what)
}

/// A colour is offered to the terminal exactly when the action has one to
/// show: a native brightness command does not, a scaled one does, because
/// there the brightness is a dimmed colour.
fn shown(usb: (u16, u16), action: Action) -> Option<Rgb> {
    let spec = spec(usb);
    let driver = driver_for(&spec.driver).unwrap();
    plan(&driver, &spec, action).unwrap().shown
}

const KEYBOARD: (u16, u16) = (0x1532, 0x023F);
const MOUSE: (u16, u16) = (0x03F0, 0x0D8F);

#[test]
fn brightness_uses_the_native_command_where_the_registry_declares_one() {
    let kb = spec(KEYBOARD);
    let (built, what) = packets(
        KEYBOARD,
        Action::Brightness {
            level: 40,
            base: Rgb::new(255, 0, 0),
        },
    );
    let native = driver_for(&kb.driver).unwrap().set_brightness(&kb, 40).unwrap();
    assert_eq!(built, native);
    assert_eq!(what, "brightness 40%");
}

#[test]
fn brightness_scales_the_colour_where_the_registry_declares_no_command() {
    let (built, what) = packets(
        MOUSE,
        Action::Brightness {
            level: 40,
            base: Rgb::new(255, 0, 0),
        },
    );
    let mouse = spec(MOUSE);
    let scaled = driver_for(&mouse.driver)
        .unwrap()
        .set_color(&mouse, Rgb::new(102, 0, 0))
        .unwrap();
    assert_eq!(built, scaled);
    assert_eq!(what, "#660000 (#ff0000 at 40%)");
}

#[test]
fn power_uses_the_native_command_where_the_registry_declares_one() {
    let kb = spec(KEYBOARD);
    let (built, what) = packets(KEYBOARD, Action::Power(false));
    let native = driver_for(&kb.driver).unwrap().set_power(&kb, false).unwrap();
    assert_eq!(built, native);
    assert_eq!(what, "off");
}

#[test]
fn power_falls_back_to_black_and_white_where_the_registry_declares_no_command() {
    let mouse = spec(MOUSE);
    let driver = driver_for(&mouse.driver).unwrap();

    let (off, what) = packets(MOUSE, Action::Power(false));
    assert_eq!(off, driver.set_color(&mouse, Rgb::black()).unwrap());
    assert_eq!(what, "off (#000000)");

    let (on, what) = packets(MOUSE, Action::Power(true));
    assert_eq!(on, driver.set_color(&mouse, Rgb::white()).unwrap());
    assert_eq!(what, "on (#ffffff)");
}

#[test]
fn a_plain_colour_is_unaffected_by_the_new_commands() {
    let (built, what) = packets(KEYBOARD, Action::Color(Rgb::new(255, 0, 0)));
    let kb = spec(KEYBOARD);
    let direct = driver_for(&kb.driver)
        .unwrap()
        .set_color(&kb, Rgb::new(255, 0, 0))
        .unwrap();
    assert_eq!(built, direct);
    assert_eq!(what, "#ff0000");
}

#[test]
fn flags_pick_one_action_with_power_winning_over_brightness() {
    assert!(matches!(
        Action::from_flags("blue", None, false, false).unwrap(),
        Action::Color(Rgb { b: 255, .. })
    ));
    assert!(matches!(
        Action::from_flags("red", Some(20), false, false).unwrap(),
        Action::Brightness { level: 20, .. }
    ));
    assert!(matches!(
        Action::from_flags("red", None, true, false).unwrap(),
        Action::Power(false)
    ));
    assert!(matches!(
        Action::from_flags("red", None, false, true).unwrap(),
        Action::Power(true)
    ));
    assert!(Action::from_flags("burgundy", None, false, false).is_err());
}

#[test]
fn a_colour_is_offered_for_display_only_when_the_action_has_one() {
    let red = Rgb::new(255, 0, 0);
    assert_eq!(shown(KEYBOARD, Action::Color(red)), Some(red));
    // The keyboard has a brightness command, so nothing about the colour
    // changed and there is nothing to show.
    assert_eq!(
        shown(KEYBOARD, Action::Brightness { level: 40, base: red }),
        None
    );
    // The mouse reaches brightness by dimming the colour, so the dimmed
    // colour is what actually went to the device.
    assert_eq!(
        shown(MOUSE, Action::Brightness { level: 40, base: red }),
        Some(red.scaled(40))
    );
    assert_eq!(shown(KEYBOARD, Action::Power(false)), None);
    assert_eq!(shown(MOUSE, Action::Power(false)), Some(Rgb::black()));
    assert_eq!(shown(MOUSE, Action::Power(true)), Some(Rgb::white()));
}

#[test]
fn set_plans_every_target_or_says_why_not() {
    let r = Registry::builtin().unwrap();
    let all: Vec<&DeviceSpec> = r.all().iter().collect();

    let work = plan_targets(&r, &all, "all", Action::Color(Rgb::new(255, 0, 0))).unwrap();
    assert_eq!(work.len(), 2);
    assert_eq!(work[0].0.id, r.all()[0].id);
    assert_eq!(work[1].1.what, "#ff0000");

    let work = plan_targets(&r, &all, "mouse", Action::Power(false)).unwrap();
    assert_eq!(work.len(), 1);
    assert_eq!(work[0].1.what, "off (#000000)");

    assert!(matches!(
        plan_targets(&r, &[], "all", Action::Power(true)),
        Err(SetError::NothingPlugged)
    ));
    match plan_targets(&r, &all, "lamp", Action::Power(true)) {
        Err(SetError::NoMatch { target, connected }) => {
            assert_eq!(target, "lamp");
            assert_eq!(connected.len(), 2);
        }
        other => panic!("expected NoMatch, got {other:?}"),
    }
}

#[test]
fn a_device_whose_plan_fails_fails_the_whole_set() {
    let r = Registry::builtin().unwrap();
    // A mouse entry that wrongly claims a native brightness command.
    let mut wrong = spec(MOUSE);
    wrong.brightness = BrightnessMode::Native;
    let kb = spec(KEYBOARD);
    let present = vec![&kb, &wrong];
    match plan_targets(&r, &present, "all", Action::Brightness { level: 40, base: Rgb::new(255, 0, 0) }) {
        Err(SetError::Device { device, error }) => {
            assert_eq!(device, "hyperx-pulsefire-core");
            assert!(matches!(error, DriverError::NoNativeCommand { .. }));
        }
        other => panic!("expected a device error, got {other:?}"),
    }
}
