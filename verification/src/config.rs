//! Configuration: what the program is started with.

use crate::command::{Command, Param};
use crate::driver::{DriverModel, PollPolicy, DEFAULT_BACKOFF_MS, DEFAULT_STATUS_TIMEOUT_MS, SNR9816};
use crate::request::{setting, sounding};
use crate::tag::{tag_of, NotifyTag};
use vstd::prelude::*;
use vstd::string::StringExecFns;

verus! {

/// Speed of the serial line unless told otherwise.
pub const DEFAULT_BAUD_RATE: u32 = 115200;

/// Address the service listens on unless told otherwise.
pub const DEFAULT_SERVER_ADDR: &'static str = "127.0.0.1";

/// Port the service listens on unless told otherwise.
pub const DEFAULT_SERVER_PORT: u16 = 8080;

/// Volume, speaking rate and pitch the device starts with unless told
/// otherwise.
pub const DEFAULT_VOICE: u8 = 2;

/// Tag of the notification sound played at start unless told otherwise.
pub const DEFAULT_NOTIFY: &'static str = "message_5";

/// Start-up configuration.
#[derive(Clone, Debug, PartialEq, Eq)]
pub struct Config {
    /// Path of the serial device.
    pub serial_port: String,
    /// Speed of the serial line.
    pub baud_rate: u32,
    /// Address the service listens on.
    pub server_addr: String,
    /// Port the service listens on.
    pub server_port: u16,
    /// Volume the device starts with.
    pub volume: u8,
    /// Speaking rate the device starts with.
    pub speed: u8,
    /// Pitch the device starts with.
    pub tone: u8,
    /// Tag of the notification sound played at start.
    pub notify: String,
}

impl Config {
    /// The configuration for the serial device `serial_port` with everything
    /// else left at its default.
    pub fn for_port(serial_port: String) -> (config: Config)
        ensures
            config.serial_port == serial_port,
            config.baud_rate == DEFAULT_BAUD_RATE,
            config.server_addr@ == DEFAULT_SERVER_ADDR@,
            config.server_port == DEFAULT_SERVER_PORT,
            config.volume == DEFAULT_VOICE,
            config.speed == DEFAULT_VOICE,
            config.tone == DEFAULT_VOICE,
            config.notify@ == DEFAULT_NOTIFY@,
    {
        Config {
            serial_port,
            baud_rate: DEFAULT_BAUD_RATE,
            server_addr: String::from_str(DEFAULT_SERVER_ADDR),
            server_port: DEFAULT_SERVER_PORT,
            volume: DEFAULT_VOICE,
            speed: DEFAULT_VOICE,
            tone: DEFAULT_VOICE,
            notify: String::from_str(DEFAULT_NOTIFY),
        }
    }

    /// A driver for the configured serial device.
    pub fn driver(&self) -> (driver: SNR9816)
        ensures
            driver@ == DriverModel::fresh(
                self.serial_port@,
                self.baud_rate,
                PollPolicy {
                    status_timeout_ms: DEFAULT_STATUS_TIMEOUT_MS,
                    backoff_ms: DEFAULT_BACKOFF_MS,
                    max_polls: None,
                },
            ),
    {
        SNR9816::new(self.serial_port.clone(), self.baud_rate)
    }

    /// The configured notification sound, if `notify` spells one.
    pub fn notify_tag(&self) -> (tag: Option<NotifyTag>)
        ensures
            tag == tag_of(self.notify@),
    {
        NotifyTag::parse(self.notify.as_str())
    }

    /// The commands that bring the device to its configured voice: volume,
    /// speed and tone, then the notification sound if `notify` spells one.
    pub open spec fn startup_plan(self) -> Seq<Command> {
        setting(Param::Volume, Some(self.volume)) + setting(Param::Speed, Some(self.speed))
            + setting(Param::Tone, Some(self.tone)) + sounding(tag_of(self.notify@))
    }

    /// Lists the commands to carry out once, at start: the configured volume,
    /// speed and tone, then the configured notification sound if `notify`
    /// spells one. None of them waits for an idle device.
    pub fn startup_commands(&self) -> (commands: Vec<Command>)
        ensures
            commands@ == self.startup_plan(),
    {
        let tag = self.notify_tag();
        let mut commands: Vec<Command> = Vec::new();
        commands.push(Command::SetParam(Param::Volume, self.volume));
        commands.push(Command::SetParam(Param::Speed, self.speed));
        commands.push(Command::SetParam(Param::Tone, self.tone));
        if let Some(found) = tag {
            commands.push(found.command());
        }
        assert(commands@ =~= self.startup_plan());
        commands
    }
}

} // verus!
