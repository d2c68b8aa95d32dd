//! The wire formats, as plain values: what each driver answers to each command.
//!
//! Razer "extended matrix": a 90-byte report body on an unnumbered feature
//! report, so the wire buffer is `0x00` followed by the body.
//!
//! ```text
//!   0      status              0x00
//!   1      transaction id      0x3F
//!   2..3   remaining packets   0x0000
//!   4      protocol type       0x00
//!   5      data size           number of meaningful argument bytes
//!   6      command class       0x0F = extended matrix
//!   7      command id          0x02 = set effect, 0x04 = set brightness
//!   8..87  arguments
//!   88     crc                 XOR of bytes 2..87
//!   89     reserved            0x00
//! ```
//!
//! HyperX Pulsefire direct colour: a 264-byte buffer, report id 0x07, packet id
//! 0x0A, then R, G, B at 2..4 and the terminator 0xA0 at 8; everything else 0.
use crate::color::{rgb, Rgb};
use crate::device::DeviceModel;
use crate::driver::{length_fault, DriverFault};
use vstd::prelude::*;

verus! {

/// A command a driver turns into packets.
pub enum DriverCommand {
    Color(Rgb),
    Brightness(u8),
    Power(bool),
}

pub open spec fn razer_name() -> Seq<char> {
    "razer-extended-matrix"@
}

pub open spec fn hyperx_name() -> Seq<char> {
    "hyperx-pulsefire"@
}

/// Data bytes of the control report each driver needs.
pub open spec fn report_len(name: Seq<char>) -> u32 {
    if name == razer_name() {
        90
    } else if name == hyperx_name() {
        263
    } else {
        0
    }
}

/// What the driver called `name` answers to `cmd` for `dev`.
pub open spec fn protocol(name: Seq<char>, dev: DeviceModel, cmd: DriverCommand) -> Result<
    Seq<Seq<u8>>,
    DriverFault,
> {
    if name == razer_name() {
        razer_answer(dev, cmd)
    } else if name == hyperx_name() {
        hyperx_answer(dev, cmd)
    } else {
        Err(DriverFault::Unknown(name))
    }
}

// ---------------------------------------------------------------------------
// Razer extended matrix
// ---------------------------------------------------------------------------

pub open spec fn xor_all(s: Seq<u8>) -> u8
    decreases s.len(),
{
    if s.len() == 0 {
        0
    } else {
        xor_all(s.drop_last()) ^ s.last()
    }
}

/// The 90-byte body before its checksum is written.
pub open spec fn razer_frame(class: u8, cmd: u8, args: Seq<u8>) -> Seq<u8> {
    Seq::new(
        90,
        |i: int|
            if i == 1 {
                0x3Fu8
            } else if i == 5 {
                args.len() as u8
            } else if i == 6 {
                class
            } else if i == 7 {
                cmd
            } else if 8 <= i < 8 + args.len() {
                args[i - 8]
            } else {
                0u8
            },
    )
}

/// The 90-byte body: the frame with byte 88 set to the XOR of bytes 2..87.
pub open spec fn razer_body(class: u8, cmd: u8, args: Seq<u8>) -> Seq<u8> {
    let f = razer_frame(class, cmd, args);
    f.update(88, xor_all(f.subrange(2, 88)))
}

/// The wire buffer: report id 0x00, then the body.
pub open spec fn razer_packet(class: u8, cmd: u8, args: Seq<u8>) -> Seq<u8> {
    seq![0u8] + razer_body(class, cmd, args)
}

/// Percent to the 0-255 scale the protocol uses, rounded to nearest; above
/// 100 counts as 100.
pub open spec fn brightness_byte_spec(level: u8) -> u8 {
    let l = if level > 100 { 100int } else { level as int };
    ((l * 255 + 50) / 100) as u8
}

/// Static effect: VARSTORE, backlight LED, static, 0, 0, 1, then the colour.
pub open spec fn razer_static(c: Rgb) -> Seq<u8> {
    razer_packet(0x0F, 0x02, seq![0x01u8, 0x05, 0x01, 0x00, 0x00, 0x01, c.r, c.g, c.b])
}

/// Brightness command: VARSTORE, backlight LED, level on the 0-255 scale.
pub open spec fn razer_brightness(level: u8) -> Seq<u8> {
    razer_packet(0x0F, 0x04, seq![0x01u8, 0x05, brightness_byte_spec(level)])
}

/// The "none" effect. Its data size is 6: the three trailing zeroes are part
/// of the command as captured.
pub open spec fn razer_none() -> Seq<u8> {
    razer_packet(0x0F, 0x02, seq![0x01u8, 0x05, 0x00, 0x00, 0x00, 0x00])
}

pub open spec fn razer_answer(dev: DeviceModel, cmd: DriverCommand) -> Result<
    Seq<Seq<u8>>,
    DriverFault,
> {
    match length_fault(razer_name(), dev) {
        Some(f) => Err(f),
        None => match cmd {
            DriverCommand::Color(c) => Ok(seq![razer_static(c)]),
            DriverCommand::Brightness(level) => Ok(seq![razer_brightness(level)]),
            DriverCommand::Power(on) => if on {
                // No "on" command: static white, then full brightness.
                Ok(seq![razer_static(rgb(255, 255, 255)), razer_brightness(100)])
            } else {
                Ok(seq![razer_none()])
            },
        },
    }
}

// ---------------------------------------------------------------------------
// HyperX Pulsefire
// ---------------------------------------------------------------------------

pub open spec fn hyperx_direct(c: Rgb) -> Seq<u8> {
    Seq::new(
        264,
        |i: int|
            if i == 0 {
                0x07u8
            } else if i == 1 {
                0x0Au8
            } else if i == 2 {
                c.r
            } else if i == 3 {
                c.g
            } else if i == 4 {
                c.b
            } else if i == 8 {
                0xA0u8
            } else {
                0u8
            },
    )
}

pub open spec fn hyperx_answer(dev: DeviceModel, cmd: DriverCommand) -> Result<
    Seq<Seq<u8>>,
    DriverFault,
> {
    match cmd {
        DriverCommand::Color(c) => match length_fault(hyperx_name(), dev) {
            Some(f) => Err(f),
            None => Ok(seq![hyperx_direct(c)]),
        },
        DriverCommand::Brightness(_) => Err(
            DriverFault::NoNativeCommand { device: dev.id, command: "brightness"@ },
        ),
        DriverCommand::Power(_) => Err(
            DriverFault::NoNativeCommand { device: dev.id, command: "power"@ },
        ),
    }
}

} // verus!
