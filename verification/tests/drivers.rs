use lumen::{driver_for, driver_names, BrightnessMode, DriverError, Packet, PowerMode, Registry};

/// The registry says how each device reaches brightness and power, and the
/// driver has to agree.
#[test]
fn declared_behaviour_matches_what_each_driver_implements() {
    for spec in Registry::builtin().unwrap().all() {
        let driver = driver_for(&spec.driver).unwrap();

        let brightness = driver.set_brightness(spec, 50);
        match spec.brightness {
            BrightnessMode::Native => assert!(
                brightness.is_ok(),
                "`{}` declares native brightness but the driver refused it",
                spec.id
            ),
            BrightnessMode::Scaled => assert!(
                brightness.is_err(),
                "`{}` declares scaled brightness but the driver built a packet",
                spec.id
            ),
        }

        let power = driver.set_power(spec, false);
        match spec.power {
            PowerMode::Native => assert!(
                power.is_ok(),
                "`{}` declares native power but the driver refused it",
                spec.id
            ),
            PowerMode::ColorBlack => assert!(
                power.is_err(),
                "`{}` declares emulated power but the driver built a packet",
                spec.id
            ),
        }
    }
}

#[test]
fn every_registry_entry_has_a_working_driver() {
    let reg = Registry::builtin().unwrap();
    for spec in reg.all() {
        let driver = driver_for(&spec.driver)
            .unwrap_or_else(|e| panic!("device `{}`: {:?}", spec.id, e));
        driver
            .check(spec)
            .unwrap_or_else(|e| panic!("device `{}`: {:?}", spec.id, e));
    }
}

#[test]
fn unknown_driver_is_an_error() {
    assert!(driver_for("does-not-exist").is_err());
}

#[test]
fn all_named_drivers_resolve() {
    for name in driver_names() {
        assert!(driver_for(name).is_ok(), "{name} is named but missing");
    }
}

#[test]
fn an_unknown_driver_error_holds_the_name() {
    assert_eq!(
        driver_for("does-not-exist").err().unwrap(),
        DriverError::Unknown("does-not-exist".into())
    );
    assert_eq!(driver_for("hyperx-pulsefire").unwrap().name(), "hyperx-pulsefire");
    assert_eq!(driver_names().len(), 2);
}

#[test]
fn packets_show_their_bytes() {
    let p = Packet::new(vec![0x07, 0x0a, 0xff]);
    assert_eq!(p.report_id(), 0x07);
    assert_eq!(p.hex(), "07 0a ff");
    assert_eq!(Packet::new(vec![]).hex(), "");
}
