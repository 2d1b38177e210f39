//! The errors that device commands and hardware operations report.

use vstd::prelude::*;

verus! {

/// Why a device refused a command or a hardware operation failed.
#[derive(Debug, PartialEq, Eq)]
pub enum ButtplugDeviceError {
    /// The request was malformed or named a feature that the device lacks.
    /// Retrying the same request cannot succeed.
    InvalidCommand(String),
    /// The transport cannot perform this operation at all.
    UnhandledCommand(String),
    /// The transport failed: the channel is closed, the device is gone, or
    /// there is no subscription to end.
    DeviceCommunicationError(String),
}

impl ButtplugDeviceError {
    /// The text carried by the error, whatever its variant.
    pub open spec fn text(self) -> Seq<char> {
        match self {
            ButtplugDeviceError::InvalidCommand(m) => m@,
            ButtplugDeviceError::UnhandledCommand(m) => m@,
            ButtplugDeviceError::DeviceCommunicationError(m) => m@,
        }
    }

    /// The text carried by the error, whatever its variant.
    pub fn message(&self) -> (m: String)
        ensures
            m@ == self.text(),
    {
        match self {
            ButtplugDeviceError::InvalidCommand(m) => m.clone(),
            ButtplugDeviceError::UnhandledCommand(m) => m.clone(),
            ButtplugDeviceError::DeviceCommunicationError(m) => m.clone(),
        }
    }
}

/// The error type of the public command interface. Device errors are the only
/// family this crate produces.
#[derive(Debug, PartialEq, Eq)]
pub enum ButtplugError {
    ButtplugDeviceError(ButtplugDeviceError),
}

impl ButtplugError {
    /// True when this is an `InvalidCommand` device error with text `text`.
    pub open spec fn is_invalid_command(self, text: Seq<char>) -> bool {
        self matches ButtplugError::ButtplugDeviceError(ButtplugDeviceError::InvalidCommand(m))
            && m@ == text
    }
}

impl From<ButtplugDeviceError> for ButtplugError {
    fn from(error: ButtplugDeviceError) -> (r: ButtplugError) {
        ButtplugError::ButtplugDeviceError(error)
    }
}

impl vstd::std_specs::convert::FromSpecImpl<ButtplugDeviceError> for ButtplugError {
    open spec fn obeys_from_spec() -> bool {
        true
    }

    open spec fn from_spec(error: ButtplugDeviceError) -> ButtplugError {
        ButtplugError::ButtplugDeviceError(error)
    }
}

} // verus!
