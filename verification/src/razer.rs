//! Razer "extended matrix" protocol.
//!
//! Razer peripherals take a fixed 90-byte control report on their vendor HID
//! collection. Verified against a Cynosa Lite (1532:023F), which exposes it as an
//! unnumbered feature report on interface 2. The wire format is written out in
//! `protocol`.
//!
//! Commands used here (`data size` is the count of meaningful argument bytes
//! and is *not* always the count of non-zero ones):
//!
//! ```text
//!   static   size 09  class 0f  cmd 02  args 01 05 01 00 00 01 RR GG BB
//!   none     size 06  class 0f  cmd 02  args 01 05 00 00 00 00
//!   bright   size 03  class 0f  cmd 04  args 01 05 LL
//! ```
//!
//! where `01` is VARSTORE, `05` is the backlight LED and `LL` is brightness on
//! a 0-255 scale.
use crate::color::{rgb, Rgb};
use crate::device::DeviceSpec;
use crate::driver::{packets_view, Driver, DriverError, Packet};
use crate::protocol::{
    brightness_byte_spec, protocol, razer_body, razer_brightness, razer_frame, razer_name,
    razer_none, razer_static, xor_all,
};
use vstd::prelude::*;

verus! {

pub const NAME: &'static str = "razer-extended-matrix";

/// Bytes in the report body, excluding the leading hidapi report-id byte.
pub const REPORT_LEN: usize = 90;

pub const TRANSACTION_ID: u8 = 0x3F;

pub const CLASS_EXTENDED_MATRIX: u8 = 0x0F;

pub const CMD_SET_EFFECT: u8 = 0x02;

pub const CMD_SET_BRIGHTNESS: u8 = 0x04;

/// Write to the device's variable store, so the setting survives a replug.
pub const VARSTORE: u8 = 0x01;

pub const BACKLIGHT_LED: u8 = 0x05;

pub const EFFECT_STATIC: u8 = 0x01;

pub const EFFECT_NONE: u8 = 0x00;

pub struct ExtendedMatrix;

impl ExtendedMatrix {
    /// Build a 90-byte report body and checksum it.
    pub fn report(command_class: u8, command_id: u8, args: &[u8]) -> (r: Vec<u8>)
        requires
            args@.len() <= 80,
        ensures
            r@ == razer_body(command_class, command_id, args@),
    {
        let mut r: Vec<u8> = vec![0u8; REPORT_LEN];
        assert(r@ =~= Seq::new(90, |i: int| 0u8));
        r.set(1, TRANSACTION_ID);
        r.set(5, args.len() as u8);
        r.set(6, command_class);
        r.set(7, command_id);
        let mut k: usize = 0;
        while k < args.len()
            invariant
                args@.len() <= 80,
                k <= args@.len(),
                r@.len() == 90,
                forall|i: int|
                    0 <= i < 90 && !(8 + k <= i < 8 + args@.len()) ==> #[trigger] r@[i]
                        == razer_frame(command_class, command_id, args@)[i],
                forall|i: int| 8 + k <= i < 90 && !(i == 1 || i == 5 || i == 6 || i == 7) ==> #[trigger] r@[i] == 0,
            decreases args@.len() - k,
        {
            r.set(8 + k, args[k]);
            k = k + 1;
        }
        let ghost frame = razer_frame(command_class, command_id, args@);
        assert(r@ =~= frame);
        let mut crc: u8 = 0;
        let mut j: usize = 2;
        while j < 88
            invariant
                2 <= j <= 88,
                frame.len() == 90,
                r@.len() == 90,
                r@ == frame,
                crc == xor_all(frame.subrange(2, j as int)),
            decreases 88 - j,
        {
            assert(frame.subrange(2, j + 1).drop_last() =~= frame.subrange(2, j as int));
            crc = crc ^ r[j];
            j = j + 1;
        }
        r.set(88, crc);
        r
    }

    /// Wrap a report body in the wire buffer this device expects: it uses
    /// unnumbered reports, so byte 0 is the report id 0x00 and the body follows.
    pub fn packet(body: Vec<u8>) -> (p: Packet)
        ensures
            p@ == seq![0u8] + body@,
    {
        let mut bytes: Vec<u8> = Vec::with_capacity(REPORT_LEN + 1);
        bytes.push(0x00);
        let mut i: usize = 0;
        while i < body.len()
            invariant
                i <= body@.len(),
                bytes@ == seq![0u8] + body@.take(i as int),
            decreases body@.len() - i,
        {
            bytes.push(body[i]);
            i = i + 1;
            assert(bytes@ =~= seq![0u8] + body@.take(i as int));
        }
        assert(body@.take(body@.len() as int) =~= body@);
        Packet::new(bytes)
    }

    /// Percent to the 0-255 scale the protocol uses, rounded to nearest.
    pub fn brightness_byte(level: u8) -> (r: u8)
        ensures
            r == brightness_byte_spec(level),
    {
        let l: u16 = if level > 100 {
            100
        } else {
            level as u16
        };
        ((l * 255 + 50) / 100) as u8
    }

    fn static_colour(c: Rgb) -> (p: Packet)
        ensures
            p@ == razer_static(c),
    {
        let args: [u8; 9] = [
            VARSTORE,
            BACKLIGHT_LED,
            EFFECT_STATIC,
            0x00,
            0x00,
            0x01,
            c.r,
            c.g,
            c.b,
        ];
        let body = Self::report(CLASS_EXTENDED_MATRIX, CMD_SET_EFFECT, args.as_slice());
        assert(args@ =~= seq![0x01u8, 0x05, 0x01, 0x00, 0x00, 0x01, c.r, c.g, c.b]);
        Self::packet(body)
    }

    fn brightness_packet(level: u8) -> (p: Packet)
        ensures
            p@ == razer_brightness(level),
    {
        let args: [u8; 3] = [VARSTORE, BACKLIGHT_LED, Self::brightness_byte(level)];
        let body = Self::report(CLASS_EXTENDED_MATRIX, CMD_SET_BRIGHTNESS, args.as_slice());
        assert(args@ =~= seq![0x01u8, 0x05, brightness_byte_spec(level)]);
        Self::packet(body)
    }
}

impl Driver for ExtendedMatrix {
    open spec fn spec_name(&self) -> Seq<char> {
        razer_name()
    }

    fn name(&self) -> (r: &'static str) {
        NAME
    }

    fn control_report_len(&self) -> (r: u32) {
        REPORT_LEN as u32
    }

    fn set_color(&self, spec: &DeviceSpec, c: Rgb) -> (r: Result<Vec<Packet>, DriverError>) {
        match self.check(spec) {
            Err(e) => Err(e),
            Ok(()) => {
                let mut v: Vec<Packet> = Vec::new();
                v.push(Self::static_colour(c));
                assert(packets_view(v@) =~= seq![razer_static(c)]);
                Ok(v)
            },
        }
    }

    fn set_brightness(&self, spec: &DeviceSpec, level: u8) -> (r: Result<Vec<Packet>, DriverError>) {
        match self.check(spec) {
            Err(e) => Err(e),
            Ok(()) => {
                let mut v: Vec<Packet> = Vec::new();
                v.push(Self::brightness_packet(level));
                assert(packets_view(v@) =~= seq![razer_brightness(level)]);
                Ok(v)
            },
        }
    }

    fn set_power(&self, spec: &DeviceSpec, on: bool) -> (r: Result<Vec<Packet>, DriverError>) {
        match self.check(spec) {
            Err(e) => Err(e),
            Ok(()) => {
                let mut v: Vec<Packet> = Vec::new();
                if !on {
                    let args: [u8; 6] = [VARSTORE, BACKLIGHT_LED, EFFECT_NONE, 0x00, 0x00, 0x00];
                    let body = Self::report(CLASS_EXTENDED_MATRIX, CMD_SET_EFFECT, args.as_slice());
                    assert(args@ =~= seq![0x01u8, 0x05, 0x00, 0x00, 0x00, 0x00]);
                    v.push(Self::packet(body));
                    assert(packets_view(v@) =~= seq![razer_none()]);
                } else {
                    // There is no "on" command: the LEDs come back as soon as an
                    // effect is set. The device never reports the colour it had
                    // before, so a known state is set instead -- static white at
                    // full brightness. Brightness is re-sent too, otherwise turning
                    // on after a brightness of 0 would leave the keyboard dark.
                    v.push(Self::static_colour(Rgb::white()));
                    v.push(Self::brightness_packet(100));
                    assert(packets_view(v@) =~= seq![
                        razer_static(rgb(255, 255, 255)),
                        razer_brightness(100),
                    ]);
                }
                Ok(v)
            },
        }
    }
}


/// The protocol's brightness scale runs from 0 at 0 percent to 255 at 100,
/// never goes down as the percentage goes up, and reads anything above 100 as
/// 100.
pub proof fn lemma_brightness_byte_scale(a: u8, b: u8)
    ensures
        brightness_byte_spec(0) == 0,
        brightness_byte_spec(100) == 255,
        a >= 100 ==> brightness_byte_spec(a) == 255,
        a <= b ==> brightness_byte_spec(a) <= brightness_byte_spec(b),
{
    let la: int = if a > 100 { 100 } else { a as int };
    let lb: int = if b > 100 { 100 } else { b as int };
    if a <= b {
        assert(la * 255 + 50 <= lb * 255 + 50);
        vstd::arithmetic::div_mod::lemma_div_is_ordered(la * 255 + 50, lb * 255 + 50, 100);
    }
}

} // verus!
