//! The driver interface: a command in, the exact report bytes out.
use crate::color::Rgb;
use crate::device::{DeviceModel, DeviceSpec};
use crate::protocol::{protocol, report_len, DriverCommand};
use crate::text::{hex2, owned, push_char, push_hex2};
use vstd::prelude::*;

verus! {

/// One HID feature report, ready for the wire.
///
/// `bytes[0]` is the report id, following the hidapi convention: a device that
/// uses unnumbered reports carries a leading `0x00` that is stripped before the
/// report reaches the device.
#[derive(Debug, Clone, PartialEq, Eq)]
pub struct Packet {
    pub bytes: Vec<u8>,
}

impl View for Packet {
    type V = Seq<u8>;

    open spec fn view(&self) -> Seq<u8> {
        self.bytes@
    }
}

/// Bytes as two-digit lower-case hex, separated by single spaces.
pub open spec fn hex_spaced(s: Seq<u8>) -> Seq<char>
    decreases s.len(),
{
    if s.len() == 0 {
        Seq::empty()
    } else if s.len() == 1 {
        hex2(s[0])
    } else {
        hex_spaced(s.drop_last()) + seq![' '] + hex2(s.last())
    }
}

impl Packet {
    pub fn new(bytes: Vec<u8>) -> (p: Packet)
        ensures
            p@ == bytes@,
    {
        Packet { bytes }
    }

    /// The report id, the first byte.
    pub fn report_id(&self) -> (r: u8)
        requires
            self@.len() > 0,
        ensures
            r == self@[0],
    {
        self.bytes[0]
    }

    /// Every byte as two hex digits, separated by spaces.
    pub fn hex(&self) -> (s: String)
        ensures
            s@ == hex_spaced(self@),
    {
        let mut s = String::new();
        let mut i: usize = 0;
        while i < self.bytes.len()
            invariant
                i <= self.bytes@.len(),
                s@ == hex_spaced(self.bytes@.take(i as int)),
            decreases self.bytes@.len() - i,
        {
            let ghost before = s@;
            if i > 0 {
                push_char(&mut s, ' ');
            }
            push_hex2(&mut s, self.bytes[i]);
            proof {
                let t = self.bytes@.take(i + 1);
                assert(t.drop_last() =~= self.bytes@.take(i as int));
                if i == 0 {
                    assert(before =~= Seq::<char>::empty());
                    assert(s@ =~= hex_spaced(t));
                } else {
                    assert(s@ =~= hex_spaced(t));
                }
            }
            i = i + 1;
        }
        assert(self.bytes@.take(self.bytes@.len() as int) =~= self.bytes@);
        s
    }
}

/// Why a driver built no packet.
#[derive(Debug, PartialEq, Eq)]
pub enum DriverError {
    /// No driver goes by this name.
    Unknown(String),
    /// The registry entry's control report length is not the one the driver
    /// needs.
    ReportLenMismatch { device: String, driver: String, expected: u32, actual: u32 },
    /// The protocol has no command for this; the device's registry entry says
    /// how to reach it with a colour instead.
    NoNativeCommand { device: String, command: String },
}

/// What a `DriverError` says, as plain values.
pub enum DriverFault {
    Unknown(Seq<char>),
    ReportLenMismatch { device: Seq<char>, driver: Seq<char>, expected: u32, actual: u32 },
    NoNativeCommand { device: Seq<char>, command: Seq<char> },
}

impl View for DriverError {
    type V = DriverFault;

    open spec fn view(&self) -> DriverFault {
        match self {
            DriverError::Unknown(n) => DriverFault::Unknown(n@),
            DriverError::ReportLenMismatch { device, driver, expected, actual } =>
                DriverFault::ReportLenMismatch {
                device: device@,
                driver: driver@,
                expected: *expected,
                actual: *actual,
            },
            DriverError::NoNativeCommand { device, command } => DriverFault::NoNativeCommand {
                device: device@,
                command: command@,
            },
        }
    }
}

pub open spec fn packets_view(v: Seq<Packet>) -> Seq<Seq<u8>> {
    v.map_values(|p: Packet| p@)
}

/// A driver's answer as plain values.
pub open spec fn built(r: Result<Vec<Packet>, DriverError>) -> Result<Seq<Seq<u8>>, DriverFault> {
    match r {
        Ok(v) => Ok(packets_view(v@)),
        Err(e) => Err(e@),
    }
}

/// The error a driver gives for a device wired to it with the wrong report
/// length, or `None` when the lengths agree.
pub open spec fn length_fault(driver: Seq<char>, dev: DeviceModel) -> Option<DriverFault> {
    if dev.control_report_len == report_len(driver) {
        None
    } else {
        Some(
            DriverFault::ReportLenMismatch {
                device: dev.id,
                driver,
                expected: report_len(driver),
                actual: dev.control_report_len,
            },
        )
    }
}

/// Turns a command into the exact bytes a device expects.
///
/// Drivers build packets and never send them. That keeps protocol work a pure
/// function of (spec, command): each method's result is what
/// `protocol::protocol` says the driver of that name answers.
pub trait Driver {
    /// The driver name used in the registry's `driver` field.
    spec fn spec_name(&self) -> Seq<char>;

    /// The driver name used in the registry's `driver` field.
    fn name(&self) -> (r: &'static str)
        ensures
            r@ == self.spec_name(),
    ;

    /// Data bytes this driver's control report must have, excluding the report id.
    fn control_report_len(&self) -> (r: u32)
        ensures
            r == report_len(self.spec_name()),
    ;

    fn set_color(&self, spec: &DeviceSpec, color: Rgb) -> (r: Result<Vec<Packet>, DriverError>)
        ensures
            built(r) == protocol(self.spec_name(), spec@, DriverCommand::Color(color)),
    ;

    /// Set brightness, where `level` is a percentage from 0 (dark) to 100
    /// (full). A protocol with no brightness command returns
    /// `DriverError::NoNativeCommand` rather than silently faking one.
    fn set_brightness(&self, spec: &DeviceSpec, level: u8) -> (r: Result<Vec<Packet>, DriverError>)
        ensures
            built(r) == protocol(self.spec_name(), spec@, DriverCommand::Brightness(level)),
    ;

    /// Turn the lighting off (`on = false`) or back on. A protocol with no
    /// power command returns `DriverError::NoNativeCommand`.
    fn set_power(&self, spec: &DeviceSpec, on: bool) -> (r: Result<Vec<Packet>, DriverError>)
        ensures
            built(r) == protocol(self.spec_name(), spec@, DriverCommand::Power(on)),
    ;

    /// Reject a registry entry wired to the wrong driver before any I/O happens.
    fn check(&self, spec: &DeviceSpec) -> (r: Result<(), DriverError>)
        ensures
            match r {
                Ok(()) => length_fault(self.spec_name(), spec@) is None,
                Err(e) => length_fault(self.spec_name(), spec@) == Some(e@),
            },
    {
        let expected = self.control_report_len();
        if spec.control_report_len == expected {
            Ok(())
        } else {
            Err(
                DriverError::ReportLenMismatch {
                    device: spec.id.clone(),
                    driver: owned(self.name()),
                    expected,
                    actual: spec.control_report_len,
                },
            )
        }
    }
}

} // verus!
