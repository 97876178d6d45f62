//! The ways a command can fail.

use vstd::prelude::*;

verus! {

/// Why a command was not carried out.
#[derive(Clone, Copy, Debug, PartialEq, Eq, Structural)]
pub enum DriverError {
    /// The payload, together with the command and codec bytes, does not fit
    /// the 16-bit length field. Nothing is written for such a command.
    EncodingTooLarge,
    /// The serial line is held by another command or is broken.
    ChannelUnavailable,
    /// The device did not report idle within the caller's limit.
    DeviceUnresponsive,
}

impl DriverError {
    /// A short description for logs and service replies.
    pub fn message(&self) -> (text: &'static str)
        ensures
            text@ == match *self {
                DriverError::EncodingTooLarge => "payload too large for one frame"@,
                DriverError::ChannelUnavailable => "serial channel unavailable"@,
                DriverError::DeviceUnresponsive => "device did not become idle"@,
            },
    {
        match self {
            DriverError::EncodingTooLarge => "payload too large for one frame",
            DriverError::ChannelUnavailable => "serial channel unavailable",
            DriverError::DeviceUnresponsive => "device did not become idle",
        }
    }

    /// Whether trying the same command again later can succeed.
    ///
    /// Only an unresponsive device is worth a retry: an oversized payload
    /// stays oversized, and a broken line is never reopened.
    pub fn is_retryable(&self) -> (retry: bool)
        ensures
            retry == (*self == DriverError::DeviceUnresponsive),
    {
        match self {
            DriverError::DeviceUnresponsive => true,
            _ => false,
        }
    }
}

} // verus!
