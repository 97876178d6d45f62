//! Driver core for the SNR9816 speech-synthesis module.
//!
//! The module is reached over a serial line and understands a small binary
//! framing protocol. This crate holds everything about that protocol that can
//! be decided without touching the line: how frames are laid out, how text is
//! transcoded, which frame each command becomes, how the one status byte is
//! read, the state machine that gates speech on an idle device, and the guard
//! that serves callers in turn and keeps their commands from interleaving. A
//! host program performs the I/O that the guard asks for and reports back
//! what happened.

pub mod batch;
pub mod command;
pub mod config;
pub mod driver;
pub mod error;
pub mod frame;
pub mod guard;
pub mod request;
pub mod status;
pub mod tag;
pub mod trace;
pub mod transcoder;

pub use crate::batch::Batch;
pub use crate::command::Command;
pub use crate::config::Config;
pub use crate::driver::{Action, Event, SNR9816};
pub use crate::error::DriverError;
pub use crate::guard::ChannelGuard;
pub use crate::transcoder::GbkEncodedString;
