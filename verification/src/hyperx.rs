//! HyperX Pulsefire direct-colour protocol.
//!
//! Verified against a Pulsefire Core (03F0:0D8F), which declares feature report
//! 0x07 with 263 data bytes on interface 1 (vendor usage page 0xFF01).
//!
//! Wire buffer, 264 bytes including the leading report id:
//!
//! ```text
//!   0      report id     0x07
//!   1      packet id     0x0A = direct colour
//!   2..4   R, G, B
//!   8      0xA0          terminator the firmware requires
//! ```
//!
//! Known limitation: direct mode is not latched. The firmware reclaims the LED
//! between packets, so the colour only holds while the packet is re-sent. The
//! registry records this as `holds_colour = false`.
//!
//! Direct colour is the only command known for this protocol: no brightness and
//! no power command have been published. Both are therefore refused here rather
//! than faked, and the registry declares how they are reached instead
//! (`brightness = "scaled"`, `power = "color-black"`).
use crate::color::Rgb;
use crate::device::DeviceSpec;
use crate::driver::{packets_view, Driver, DriverError, Packet};
use crate::protocol::{hyperx_direct, hyperx_name, protocol, razer_name};
use crate::text::owned;
use vstd::prelude::*;

verus! {

pub const NAME: &'static str = "hyperx-pulsefire";

/// Data bytes, excluding the leading report-id byte.
pub const REPORT_LEN: usize = 263;

pub const PACKET_ID_DIRECT: u8 = 0x0A;

pub const TERMINATOR: u8 = 0xA0;

pub struct Pulsefire;

proof fn lemma_names_differ()
    ensures
        hyperx_name() != razer_name(),
{
    reveal_strlit("hyperx-pulsefire");
    reveal_strlit("razer-extended-matrix");
    assert(hyperx_name().len() != razer_name().len());
}

impl Driver for Pulsefire {
    open spec fn spec_name(&self) -> Seq<char> {
        hyperx_name()
    }

    fn name(&self) -> (r: &'static str) {
        NAME
    }

    fn control_report_len(&self) -> (r: u32) {
        proof {
            lemma_names_differ();
        }
        REPORT_LEN as u32
    }

    fn set_color(&self, spec: &DeviceSpec, c: Rgb) -> (r: Result<Vec<Packet>, DriverError>) {
        proof {
            lemma_names_differ();
        }
        match self.check(spec) {
            Err(e) => Err(e),
            Ok(()) => {
                let mut bytes: Vec<u8> = vec![0u8; REPORT_LEN + 1];
                assert(bytes@ =~= Seq::new(264, |i: int| 0u8));
                bytes.set(0x00, 0x07);
                bytes.set(0x01, PACKET_ID_DIRECT);
                bytes.set(0x02, c.r);
                bytes.set(0x03, c.g);
                bytes.set(0x04, c.b);
                bytes.set(0x08, TERMINATOR);
                assert(bytes@ =~= hyperx_direct(c));
                let mut v: Vec<Packet> = Vec::new();
                v.push(Packet::new(bytes));
                assert(packets_view(v@) =~= seq![hyperx_direct(c)]);
                Ok(v)
            },
        }
    }

    fn set_brightness(&self, spec: &DeviceSpec, _level: u8) -> (r: Result<Vec<Packet>, DriverError>) {
        proof {
            lemma_names_differ();
        }
        Err(DriverError::NoNativeCommand { device: spec.id.clone(), command: owned("brightness") })
    }

    fn set_power(&self, spec: &DeviceSpec, _on: bool) -> (r: Result<Vec<Packet>, DriverError>) {
        proof {
            lemma_names_differ();
        }
        Err(DriverError::NoNativeCommand { device: spec.id.clone(), command: owned("power") })
    }
}

} // verus!
