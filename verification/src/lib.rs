//! Verified core of `lumen`, which sets the RGB lighting of keyboards and mice:
//! colours, the device registry, the protocol drivers that turn a command into
//! exact report bytes, HID report descriptors and the search for a device's
//! control interface, and the decisions and output of the command line and its
//! menu. Nothing here touches hardware.
pub mod access;
pub mod cli;
pub mod color;
pub mod descriptor;
pub mod device;
pub mod driver;
pub mod drivers;
pub mod hid;
pub mod hyperx;
pub mod lines;
pub mod menu;
pub mod number;
pub mod paint;
pub mod probe;
pub mod protocol;
pub mod razer;
pub mod text;
pub mod usage;

pub use access::Access;
pub use cli::{plan, plan_targets, Action, Command, Planned, SetError};
pub use color::{named_colors, ColorParseError, Rgb};
pub use descriptor::{checked_feature_reports, feature_reports};
pub use device::{
    parse_usb_id, BrightnessMode, DeviceSpec, PowerMode, Registry, RegistryError, UsbIdError,
};
pub use driver::{Driver, DriverError, Packet};
pub use drivers::{driver_for, driver_names};
pub use hyperx::Pulsefire;
pub use number::IntErrorKind;
pub use paint::swatch;
pub use probe::{ProbedDevice, ProbedInterface, ScanEntry};
pub use razer::ExtendedMatrix;
pub use usage::{civil_from_days, log_line, timestamp};
