//! Looking a driver up by the name the registry uses.
//!
//! One driver per protocol family, not per device: several devices can share a
//! driver, which is why adding a device usually means editing the registry and
//! writing no Rust at all.
use crate::color::{rgb, Rgb};
use crate::device::{builtin_models, BrightnessMode, DeviceModel, PowerMode};
use crate::driver::{length_fault, Driver, DriverError, DriverFault};
use crate::hyperx::{self, Pulsefire};
use crate::protocol::{
    hyperx_name, protocol, razer_body, razer_frame, razer_name, razer_none, razer_packet,
    razer_static, xor_all, DriverCommand,
};
use crate::razer::{self, ExtendedMatrix};
use crate::text::{owned, str_eq};
use vstd::prelude::*;

verus! {

/// Whether lumen ships a driver by this name.
pub open spec fn is_driver_name(name: Seq<char>) -> bool {
    name == razer_name() || name == hyperx_name()
}

/// Look up a driver by the name used in the registry's `driver` field.
pub fn driver_for(name: &str) -> (r: Result<Box<dyn Driver>, DriverError>)
    ensures
        r is Ok <==> is_driver_name(name@),
        match r {
            Ok(d) => d.spec_name() == name@,
            Err(e) => e@ == DriverFault::Unknown(name@),
        },
{
    if str_eq(name, razer::NAME) {
        Ok(Box::new(ExtendedMatrix))
    } else if str_eq(name, hyperx::NAME) {
        Ok(Box::new(Pulsefire))
    } else {
        Err(DriverError::Unknown(owned(name)))
    }
}

/// Every driver name lumen ships, for help text and diagnostics: each one
/// resolves, and nothing else does.
pub fn driver_names() -> (r: &'static [&'static str])
    ensures
        r@.len() == 2,
        r@[0]@ == razer_name(),
        r@[1]@ == hyperx_name(),
        forall|i: int| 0 <= i < r@.len() ==> is_driver_name(#[trigger] r@[i]@),
        forall|n: Seq<char>| is_driver_name(n) ==> exists|i: int| 0 <= i < r@.len() && #[trigger] r@[i]@ == n,
{
    let names: &'static [&'static str] = &[razer::NAME, hyperx::NAME];
    assert(names@[0]@ == razer_name());
    assert(names@[1]@ == hyperx_name());
    names
}

/// Every device in the built-in registry names a driver lumen ships, its
/// control report length is the one that driver needs, and the driver agrees
/// with what the entry declares: a device declared `native` for brightness or
/// power gets a packet, and one declared otherwise is refused rather than
/// faked.
pub proof fn lemma_builtin_entries_match_their_drivers(i: int, level: u8, on: bool)
    requires
        0 <= i < builtin_models().len(),
    ensures
        ({
            let d = builtin_models()[i];
            &&& is_driver_name(d.driver)
            &&& length_fault(d.driver, d) is None
            &&& (d.brightness == BrightnessMode::Native <==> protocol(
                d.driver,
                d,
                DriverCommand::Brightness(level),
            ) is Ok)
            &&& (d.power == PowerMode::Native <==> protocol(d.driver, d, DriverCommand::Power(on)) is Ok)
        }),
{
    reveal_strlit("razer-extended-matrix");
    reveal_strlit("hyperx-pulsefire");
    assert(razer_name() != hyperx_name()) by {
        assert(razer_name().len() != hyperx_name().len());
    }
}

/// On the Razer protocol, off is its own command and not the colour black:
/// black is still a static effect and would leave the backlight driven.
pub proof fn lemma_razer_off_is_not_black()
    ensures
        razer_none() != razer_static(rgb(0, 0, 0)),
{
    assert(razer_none()[6] == 6);
    assert(razer_static(rgb(0, 0, 0))[6] == 9);
}


/// What a Razer frame looks like on the wire, for any arguments that fit.
proof fn lemma_razer_packet_shape(class: u8, cmd: u8, args: Seq<u8>)
    requires
        args.len() <= 80,
    ensures
        ({
            let p = razer_packet(class, cmd, args);
            &&& p.len() == 91
            &&& p[0] == 0
            &&& p[2] == 0x3F
            &&& p[6] == args.len()
            &&& p[89] == xor_all(p.subrange(3, 89))
            &&& p[90] == 0
        }),
{
    let f = razer_frame(class, cmd, args);
    let b = razer_body(class, cmd, args);
    let p = razer_packet(class, cmd, args);
    assert(b.subrange(2, 88) =~= f.subrange(2, 88));
    assert(p.subrange(3, 89) =~= b.subrange(2, 88));
    assert(p[89] == b[88]);
    assert(p[90] == b[89]);
}

/// Every packet the Razer driver builds is a well-formed frame: the
/// unnumbered report id 0, a 90-byte body with transaction id `0x3F`, the
/// checksum the XOR of body bytes 2 to 87, and the reserved last byte 0.
pub proof fn lemma_razer_frames_are_checksummed(dev: DeviceModel, cmd: DriverCommand, i: int)
    requires
        protocol(razer_name(), dev, cmd) is Ok,
        0 <= i < protocol(razer_name(), dev, cmd)->Ok_0.len(),
    ensures
        ({
            let p = protocol(razer_name(), dev, cmd)->Ok_0[i];
            &&& p.len() == 91
            &&& p[0] == 0
            &&& p[2] == 0x3F
            &&& p[89] == xor_all(p.subrange(3, 89))
            &&& p[90] == 0
        }),
{
    let white = rgb(255, 255, 255);
    lemma_razer_packet_shape(0x0F, 0x02, seq![0x01u8, 0x05, 0x01, 0x00, 0x00, 0x01, white.r, white.g, white.b]);
    lemma_razer_packet_shape(0x0F, 0x04, seq![0x01u8, 0x05, crate::protocol::brightness_byte_spec(100)]);
    lemma_razer_packet_shape(0x0F, 0x02, seq![0x01u8, 0x05, 0x00, 0x00, 0x00, 0x00]);
    match cmd {
        DriverCommand::Color(c) => {
            lemma_razer_packet_shape(0x0F, 0x02, seq![0x01u8, 0x05, 0x01, 0x00, 0x00, 0x01, c.r, c.g, c.b]);
        },
        DriverCommand::Brightness(level) => {
            lemma_razer_packet_shape(0x0F, 0x04, seq![0x01u8, 0x05, crate::protocol::brightness_byte_spec(level)]);
        },
        DriverCommand::Power(_) => {},
    }
}

/// Razer has no "on" command: turning the lighting on is the static-white
/// packet followed by the full-brightness packet, exactly what setting the
/// colour white and the brightness to 100 build.
pub proof fn lemma_razer_on_is_white_at_full_brightness(dev: DeviceModel)
    ensures
        protocol(razer_name(), dev, DriverCommand::Power(true)) is Ok <==> protocol(
            razer_name(),
            dev,
            DriverCommand::Color(rgb(255, 255, 255)),
        ) is Ok,
        protocol(razer_name(), dev, DriverCommand::Power(true)) is Ok ==> protocol(
            razer_name(),
            dev,
            DriverCommand::Power(true),
        )->Ok_0 == protocol(razer_name(), dev, DriverCommand::Color(rgb(255, 255, 255)))->Ok_0
            + protocol(razer_name(), dev, DriverCommand::Brightness(100))->Ok_0,
{
    let on = protocol(razer_name(), dev, DriverCommand::Power(true));
    if on is Ok {
        assert(on->Ok_0 =~= protocol(razer_name(), dev, DriverCommand::Color(rgb(255, 255, 255)))->Ok_0
            + protocol(razer_name(), dev, DriverCommand::Brightness(100))->Ok_0);
    }
}

/// The HyperX direct-colour packet sets only the documented offsets: report
/// id, packet id, red, green, blue and the terminator. Every other byte of
/// the 264 is zero, whatever the colour, black included.
pub proof fn lemma_hyperx_sets_only_documented_offsets(dev: DeviceModel, c: Rgb, i: int)
    requires
        dev.control_report_len == 263,
    ensures
        protocol(hyperx_name(), dev, DriverCommand::Color(c)) is Ok,
        ({
            let ps = protocol(hyperx_name(), dev, DriverCommand::Color(c))->Ok_0;
            &&& ps.len() == 1
            &&& ps[0].len() == 264
            &&& ps[0][0] == 0x07 && ps[0][1] == 0x0A && ps[0][8] == 0xA0
            &&& ps[0][2] == c.r && ps[0][3] == c.g && ps[0][4] == c.b
            &&& (0 <= i < 264 && i != 0 && i != 1 && i != 2 && i != 3 && i != 4 && i != 8
                ==> ps[0][i] == 0)
        }),
{
    reveal_strlit("razer-extended-matrix");
    reveal_strlit("hyperx-pulsefire");
    assert(razer_name() != hyperx_name()) by {
        assert(razer_name().len() != hyperx_name().len());
    }
}

/// The HyperX driver refuses brightness and power for every device and every
/// value rather than faking them; the refusal names the device and the
/// command.
pub proof fn lemma_hyperx_refuses_brightness_and_power(dev: DeviceModel, level: u8, on: bool)
    ensures
        protocol(hyperx_name(), dev, DriverCommand::Brightness(level)) == Err::<Seq<Seq<u8>>, DriverFault>(
            DriverFault::NoNativeCommand { device: dev.id, command: "brightness"@ },
        ),
        protocol(hyperx_name(), dev, DriverCommand::Power(on)) == Err::<Seq<Seq<u8>>, DriverFault>(
            DriverFault::NoNativeCommand { device: dev.id, command: "power"@ },
        ),
{
    reveal_strlit("razer-extended-matrix");
    reveal_strlit("hyperx-pulsefire");
    assert(razer_name() != hyperx_name()) by {
        assert(razer_name().len() != hyperx_name().len());
    }
}

} // verus!
