//! Whether macOS will let this process open a HID device, and what to do
//! when it will not.
//!
//! The grant is **Input Monitoring**, and macOS charges it to the application
//! that launched the shell rather than to the `lumen` binary. Enumerating
//! devices works without the grant; opening one does not. A refusal is
//! permanent: once the answer is `Denied` macOS never prompts again.
use vstd::prelude::*;

verus! {

/// What macOS says about this process's Input Monitoring access.
#[derive(Debug, Clone, Copy, PartialEq, Eq, Structural)]
pub enum Access {
    /// Granted: opening devices works.
    Granted,
    /// Refused at some point. macOS will not ask again.
    Denied,
    /// Never asked. Opening a device makes macOS put up the prompt.
    Unknown,
}

pub open spec fn denied_fix() -> Seq<char> {
    "your terminal is already in that list with its switch off. Turn it on -- macOS will not ask again by itself -- then run this again."@
}

pub open spec fn unknown_fix() -> Seq<char> {
    "add your terminal to that list, or run this again and allow the prompt macOS puts up."@
}

/// `IOHIDAccessType` is a plain C enum: granted 0, denied 1, unknown 2; any
/// other answer is read as unknown.
pub open spec fn access_from_code_spec(code: i32) -> Access {
    if code == 0 {
        Access::Granted
    } else if code == 1 {
        Access::Denied
    } else {
        Access::Unknown
    }
}

/// `IOHIDRequestType` for listening to HID events, which is what Input
/// Monitoring governs.
pub const REQUEST_LISTEN_EVENT: i32 = 1;

impl Access {
    /// What the user has to do about it, phrased for the end of an error line.
    /// `Granted` has no fix, so it has no text.
    pub fn fix(self) -> (r: Option<&'static str>)
        ensures
            r is None <==> self == Access::Granted,
            self == Access::Denied ==> (r matches Some(t) && t@ == denied_fix()),
            self == Access::Unknown ==> (r matches Some(t) && t@ == unknown_fix()),
    {
        match self {
            Access::Granted => None,
            Access::Denied => Some(
                "your terminal is already in that list with its switch off. Turn it on -- macOS will not ask again by itself -- then run this again.",
            ),
            Access::Unknown => Some(
                "add your terminal to that list, or run this again and allow the prompt macOS puts up.",
            ),
        }
    }

    /// The answer `IOHIDCheckAccess` gave, read as an `Access`.
    pub fn from_code(code: i32) -> (r: Access)
        ensures
            r == access_from_code_spec(code),
    {
        if code == 0 {
            Access::Granted
        } else if code == 1 {
            Access::Denied
        } else {
            Access::Unknown
        }
    }
}

} // verus!
