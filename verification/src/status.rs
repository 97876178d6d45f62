//! Device status, as read from the one byte the module answers a status query
//! with.

use vstd::prelude::*;

verus! {

/// The response byte with which the module reports that it is idle.
pub const STATUS_IDLE: u8 = 0x4F;

/// State of the module's speech engine.
#[derive(Clone, Copy, Debug, PartialEq, Eq, Structural)]
pub enum DeviceStatus {
    /// Ready to take speech.
    Idle,
    /// Speaking, or not known to be idle.
    Busy,
}

impl DeviceStatus {
    /// The status that a response stands for: `Idle` for the byte `0x4F`,
    /// `Busy` for any other byte and for no byte at all.
    pub open spec fn of(response: Option<u8>) -> DeviceStatus {
        if response == Some(STATUS_IDLE) {
            DeviceStatus::Idle
        } else {
            DeviceStatus::Busy
        }
    }

    /// Reads the status out of a response. `None` stands for a read that
    /// brought no byte within its timeout; it counts as busy, so that speech
    /// is never sent to a device that may still be speaking.
    pub fn from_response(response: Option<u8>) -> (status: DeviceStatus)
        ensures
            status == DeviceStatus::of(response),
            status == DeviceStatus::Idle <==> response == Some(STATUS_IDLE),
    {
        match response {
            Some(byte) => {
                if byte == STATUS_IDLE {
                    DeviceStatus::Idle
                } else {
                    DeviceStatus::Busy
                }
            },
            None => DeviceStatus::Busy,
        }
    }

    /// Whether speech may be sent.
    pub fn is_idle(&self) -> (idle: bool)
        ensures
            idle == (*self == DeviceStatus::Idle),
    {
        match self {
            DeviceStatus::Idle => true,
            DeviceStatus::Busy => false,
        }
    }
}

} // verus!
