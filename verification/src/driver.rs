//! Device state machine.
//!
//! The driver never touches the serial line itself. It is a state machine:
//! a command is handed in with [`SNR9816::submit`], the driver answers with
//! the next thing to do on the line, the host does it and reports what
//! happened with [`SNR9816::step`], until the driver answers `Done`.
//!
//! While a command is under way the line is held: no other command is taken
//! on. Speech is sent only after a status query has found the device idle;
//! every other command is written at once. A line on which a write failed, or
//! whose host reported something that was not asked for, is broken for good.

use crate::command::{lemma_command_frame_is_whole, Command, NotifyKind, Param};
use crate::error::DriverError;
use crate::frame::{encode_control, frame_of, is_frame, lemma_frame_layout, CMD_SPEAK, CMD_STATUS};
use crate::status::DeviceStatus;
use vstd::prelude::*;

verus! {

/// Milliseconds to wait for the status byte unless told otherwise.
pub const DEFAULT_STATUS_TIMEOUT_MS: u64 = 10;

/// Milliseconds between two status queries unless told otherwise.
pub const DEFAULT_BACKOFF_MS: u64 = 100;

/// How the driver polls for an idle device.
#[derive(Clone, Copy, Debug, PartialEq, Eq)]
pub struct PollPolicy {
    /// How long one read of the status byte may take, in milliseconds.
    pub status_timeout_ms: u64,
    /// How long to wait after a busy answer before asking again, in
    /// milliseconds.
    pub backoff_ms: u64,
    /// How many status queries one speech command may make before it gives
    /// up as `DeviceUnresponsive`. `None` waits for as long as it takes.
    pub max_polls: Option<u32>,
}

/// What the line is doing.
#[derive(Clone, Copy, Debug, PartialEq, Eq, Structural)]
pub enum Phase {
    /// No command is under way.
    Free,
    /// Held; the host is flushing output and discarding stale input.
    Clearing,
    /// Held; the host is writing a status query.
    Querying,
    /// Held; the host is reading the status byte.
    Reading,
    /// Held; the host is sitting out the interval between two queries.
    BackingOff,
    /// Held; the host is writing the command's frame.
    Sending,
    /// The line failed. It is never used again.
    Broken,
}

/// What a command that succeeded brought back.
#[derive(Clone, Copy, Debug, PartialEq, Eq, Structural)]
pub enum Reply {
    /// The command's frame was written.
    Sent,
    /// The device's answer to a status query.
    Status(DeviceStatus),
}

/// What the host reports back to the driver.
#[derive(Clone, Copy, Debug, PartialEq, Eq)]
pub enum Event {
    /// Output was flushed and buffered input discarded.
    LineCleared,
    /// The bytes were written, all of them.
    Written,
    /// The write failed; some of the bytes may be on the wire.
    WriteFailed,
    /// The read of the status byte ended: with this byte, or with `None` if
    /// none came in time.
    Status(Option<u8>),
    /// The interval between two queries has passed.
    BackoffElapsed,
    /// The caller's deadline passed while the host was waiting for the
    /// device.
    DeadlineExpired,
}

/// What the driver asks of the host.
#[derive(Debug, PartialEq, Eq)]
pub enum Action {
    /// Flush pending output and discard any buffered input, then report
    /// `LineCleared`.
    ClearLine,
    /// Write these bytes, whole, then report `Written` or `WriteFailed`.
    Write(Vec<u8>),
    /// Read one byte, waiting no longer than this, then report `Status`.
    ReadStatus { timeout_ms: u64 },
    /// Wait this long, then report `BackoffElapsed`.
    Backoff { millis: u64 },
    /// The command is over, with this outcome. Nothing is to be reported.
    Done(Result<Reply, DriverError>),
}

/// An [`Action`] as a mathematical value.
pub enum Effect {
    /// Flush pending output and discard any buffered input.
    ClearLine,
    /// Write these bytes, whole.
    Write(Seq<u8>),
    /// Read one byte, waiting no longer than this.
    ReadStatus { timeout_ms: u64 },
    /// Wait this long.
    Backoff { millis: u64 },
    /// The command is over, with this outcome.
    Done(Result<Reply, DriverError>),
}

impl View for Action {
    type V = Effect;

    open spec fn view(&self) -> Effect {
        match *self {
            Action::ClearLine => Effect::ClearLine,
            Action::Write(bytes) => Effect::Write(bytes@),
            Action::ReadStatus { timeout_ms } => Effect::ReadStatus { timeout_ms },
            Action::Backoff { millis } => Effect::Backoff { millis },
            Action::Done(outcome) => Effect::Done(outcome),
        }
    }
}

/// The frame that asks the device for its status.
pub open spec fn status_query() -> Seq<u8> {
    frame_of(CMD_STATUS, None, Seq::<u8>::empty())->Ok_0
}

/// The driver as a mathematical value.
pub struct DriverModel {
    /// Path of the serial device.
    pub port: Seq<char>,
    /// Speed of the serial line.
    pub baud_rate: u32,
    /// How the driver polls.
    pub policy: PollPolicy,
    /// What the line is doing.
    pub phase: Phase,
    /// The speech frame that waits for an idle device, if one does.
    pub pending: Option<Seq<u8>>,
    /// Status queries made for the command under way; it stops counting at
    /// the largest `u32`.
    pub polls: u32,
}

impl DriverModel {
    /// A driver that has not been used.
    pub open spec fn fresh(port: Seq<char>, baud_rate: u32, policy: PollPolicy) -> DriverModel {
        DriverModel { port, baud_rate, policy, phase: Phase::Free, pending: None, polls: 0 }
    }

    /// Whether the driver is in a state that it can reach: a frame waits only
    /// while its command polls for an idle device, and it is a whole speech
    /// frame; a line that is not held keeps nothing of the last command.
    pub open spec fn wf(self) -> bool {
        &&& self.pending is Some ==> {
            &&& is_frame(self.pending->Some_0)
            &&& self.pending->Some_0[3] == CMD_SPEAK
            &&& (self.phase == Phase::Clearing || self.phase == Phase::Querying || self.phase
                == Phase::Reading || self.phase == Phase::BackingOff)
        }
        &&& !self.held() ==> self.pending is None && self.polls == 0
    }

    /// Whether a command holds the line.
    pub open spec fn held(self) -> bool {
        self.phase != Phase::Free && self.phase != Phase::Broken
    }

    /// Whether the command under way has used up its status queries.
    pub open spec fn polls_used_up(self) -> bool {
        self.policy.max_polls is Some && self.polls >= self.policy.max_polls->Some_0
    }

    /// The driver with phase, pending frame and query count replaced.
    pub open spec fn at(self, phase: Phase, pending: Option<Seq<u8>>, polls: u32) -> DriverModel {
        DriverModel { phase, pending, polls, ..self }
    }

    /// The driver with the line let go into `phase`.
    pub open spec fn released(self, phase: Phase) -> DriverModel {
        self.at(phase, None, 0)
    }

    /// What becomes of the driver when `command` is handed in, and what it
    /// answers.
    ///
    /// A line that is held or broken takes no command. A command without a
    /// frame is refused and leaves no trace. Speech and a status query start
    /// by clearing the line; every other command is written at once.
    pub open spec fn submit(self, command: Command) -> (DriverModel, Effect) {
        if self.phase != Phase::Free {
            (self, Effect::Done(Err(DriverError::ChannelUnavailable)))
        } else {
            match command.frame_bytes() {
                Err(e) => (self, Effect::Done(Err(e))),
                Ok(frame) => if command is QueryStatus {
                    (self.at(Phase::Clearing, None, 0), Effect::ClearLine)
                } else if command.needs_idle() {
                    if self.policy.max_polls == Some(0u32) {
                        (self, Effect::Done(Err(DriverError::DeviceUnresponsive)))
                    } else {
                        (self.at(Phase::Clearing, Some(frame), 0), Effect::ClearLine)
                    }
                } else {
                    (self.at(Phase::Sending, None, 0), Effect::Write(frame))
                },
            }
        }
    }

    /// What becomes of the driver when the host reports `event`, and what it
    /// answers.
    pub open spec fn step(self, event: Event) -> (DriverModel, Effect) {
        match (self.phase, event) {
            (Phase::Free, _) => (self, Effect::Done(Err(DriverError::ChannelUnavailable))),
            (Phase::Broken, _) => (self, Effect::Done(Err(DriverError::ChannelUnavailable))),
            (Phase::Clearing, Event::LineCleared) => (
                self.at(Phase::Querying, self.pending, self.polls),
                Effect::Write(status_query()),
            ),
            (Phase::Querying, Event::Written) => (
                self.at(
                    Phase::Reading,
                    self.pending,
                    if self.polls < u32::MAX {
                        (self.polls + 1) as u32
                    } else {
                        self.polls
                    },
                ),
                Effect::ReadStatus { timeout_ms: self.policy.status_timeout_ms },
            ),
            (Phase::Reading, Event::Status(response)) => match self.pending {
                None => (
                    self.released(Phase::Free),
                    Effect::Done(Ok(Reply::Status(DeviceStatus::of(response)))),
                ),
                Some(frame) => if DeviceStatus::of(response) == DeviceStatus::Idle {
                    (self.at(Phase::Sending, None, self.polls), Effect::Write(frame))
                } else if self.polls_used_up() {
                    (
                        self.released(Phase::Free),
                        Effect::Done(Err(DriverError::DeviceUnresponsive)),
                    )
                } else {
                    (
                        self.at(Phase::BackingOff, self.pending, self.polls),
                        Effect::Backoff { millis: self.policy.backoff_ms },
                    )
                },
            },
            (Phase::Reading, Event::DeadlineExpired) => (
                self.released(Phase::Free),
                Effect::Done(Err(DriverError::DeviceUnresponsive)),
            ),
            (Phase::BackingOff, Event::DeadlineExpired) => (
                self.released(Phase::Free),
                Effect::Done(Err(DriverError::DeviceUnresponsive)),
            ),
            (Phase::BackingOff, Event::BackoffElapsed) => (
                self.at(Phase::Clearing, self.pending, self.polls),
                Effect::ClearLine,
            ),
            (Phase::Sending, Event::Written) => (
                self.released(Phase::Free),
                Effect::Done(Ok(Reply::Sent)),
            ),
            _ => (self.released(Phase::Broken), Effect::Done(Err(DriverError::ChannelUnavailable))),
        }
    }
}

/// The frame that asks for the device's status is a whole frame.
pub proof fn lemma_status_query_is_whole()
    ensures
        is_frame(status_query()),
        status_query() == seq![0xFDu8, 0u8, 1u8, 0x21u8],
{
    lemma_frame_layout(CMD_STATUS, None, Seq::<u8>::empty());
}

/// Handing in a command leaves a driver that is in a state it can reach in
/// such a state.
pub proof fn lemma_submit_keeps_wf(driver: DriverModel, command: Command)
    requires
        driver.wf(),
    ensures
        driver.submit(command).0.wf(),
{
    lemma_command_frame_is_whole(command);
}

/// A report leaves a driver that is in a state it can reach in such a state.
pub proof fn lemma_step_keeps_wf(driver: DriverModel, event: Event)
    requires
        driver.wf(),
    ensures
        driver.step(event).0.wf(),
{
}

impl PollPolicy {
    /// The policy of a driver that was given none: ten milliseconds for the
    /// status byte, a hundred between two queries, no limit on their number.
    pub fn standard() -> (policy: PollPolicy)
        ensures
            policy == (PollPolicy {
                status_timeout_ms: DEFAULT_STATUS_TIMEOUT_MS,
                backoff_ms: DEFAULT_BACKOFF_MS,
                max_polls: None,
            }),
    {
        PollPolicy {
            status_timeout_ms: DEFAULT_STATUS_TIMEOUT_MS,
            backoff_ms: DEFAULT_BACKOFF_MS,
            max_polls: None,
        }
    }
}

impl Default for PollPolicy {
    fn default() -> (policy: PollPolicy)
        ensures
            policy == (PollPolicy {
                status_timeout_ms: DEFAULT_STATUS_TIMEOUT_MS,
                backoff_ms: DEFAULT_BACKOFF_MS,
                max_polls: None,
            }),
    {
        PollPolicy::standard()
    }
}

/// Driver for one SNR9816 module on one serial line.
#[derive(Debug)]
pub struct SNR9816 {
    port: String,
    baud_rate: u32,
    policy: PollPolicy,
    phase: Phase,
    pending: Option<Vec<u8>>,
    polls: u32,
}

impl View for SNR9816 {
    type V = DriverModel;

    closed spec fn view(&self) -> DriverModel {
        DriverModel {
            port: self.port@,
            baud_rate: self.baud_rate,
            policy: self.policy,
            phase: self.phase,
            pending: match self.pending {
                Some(frame) => Some(frame@),
                None => None,
            },
            polls: self.polls,
        }
    }
}

impl SNR9816 {
    /// A driver for the module behind the serial device `port`, with the
    /// standard polling policy. The line is free.
    pub fn new(port: String, baudrate: u32) -> (driver: Self)
        ensures
            driver@ == DriverModel::fresh(
                port@,
                baudrate,
                PollPolicy {
                    status_timeout_ms: DEFAULT_STATUS_TIMEOUT_MS,
                    backoff_ms: DEFAULT_BACKOFF_MS,
                    max_polls: None,
                },
            ),
            driver@.wf(),
    {
        SNR9816 {
            port,
            baud_rate: baudrate,
            policy: PollPolicy::standard(),
            phase: Phase::Free,
            pending: None,
            polls: 0,
        }
    }

    /// The same driver with another polling policy.
    pub fn with_policy(self, policy: PollPolicy) -> (driver: Self)
        ensures
            driver@ == (DriverModel { policy, ..self@ }),
            self@.wf() ==> driver@.wf(),
    {
        SNR9816 {
            port: self.port,
            baud_rate: self.baud_rate,
            policy,
            phase: self.phase,
            pending: self.pending,
            polls: self.polls,
        }
    }

    /// Path of the serial device.
    pub fn port(&self) -> (port: &str)
        ensures
            port@ == self@.port,
    {
        self.port.as_str()
    }

    /// Speed of the serial line.
    pub fn baud_rate(&self) -> (baud_rate: u32)
        ensures
            baud_rate == self@.baud_rate,
    {
        self.baud_rate
    }

    /// How the driver polls.
    pub fn policy(&self) -> (policy: PollPolicy)
        ensures
            policy == self@.policy,
    {
        self.policy
    }

    /// What the line is doing.
    pub fn phase(&self) -> (phase: Phase)
        ensures
            phase == self@.phase,
    {
        self.phase
    }

    /// Hands in a command and returns the first thing to do for it, or
    /// `Done` with the reason it was not taken on.
    pub fn submit(&mut self, command: &Command) -> (action: Action)
        ensures
            (final(self)@, action@) == old(self)@.submit(*command),
            old(self)@.wf() ==> final(self)@.wf(),
    {
        proof {
            if self@.wf() {
                lemma_submit_keeps_wf(self@, *command);
            }
        }
        if !matches!(self.phase, Phase::Free) {
            return Action::Done(Err(DriverError::ChannelUnavailable));
        }
        match command.frame() {
            Err(e) => Action::Done(Err(e)),
            Ok(frame) => {
                if matches!(command, Command::QueryStatus) {
                    self.phase = Phase::Clearing;
                    self.pending = None;
                    self.polls = 0;
                    Action::ClearLine
                } else if command.waits_for_idle() {
                    if matches!(self.policy.max_polls, Some(0)) {
                        Action::Done(Err(DriverError::DeviceUnresponsive))
                    } else {
                        self.phase = Phase::Clearing;
                        self.pending = Some(frame);
                        self.polls = 0;
                        Action::ClearLine
                    }
                } else {
                    self.phase = Phase::Sending;
                    self.pending = None;
                    self.polls = 0;
                    Action::Write(frame)
                }
            },
        }
    }

    /// Takes the host's report on the last action and returns the next thing
    /// to do, or `Done` when the command is over.
    ///
    /// A busy answer is followed by a pause and the next query, until the
    /// device answers idle or the command has used up its queries. A deadline
    /// is honoured where the host waits for the device, during the read of the
    /// status byte and during the pause, and ends the command as
    /// `DeviceUnresponsive` with the line let go.
    ///
    /// A report that does not answer the last action breaks the line: what
    /// is on the wire is then unknown, and nothing more is written. With no
    /// command under way a report is refused and changes nothing.
    pub fn step(&mut self, event: Event) -> (action: Action)
        ensures
            (final(self)@, action@) == old(self)@.step(event),
            old(self)@.wf() ==> final(self)@.wf(),
    {
        match (self.phase, event) {
            (Phase::Free, _) => Action::Done(Err(DriverError::ChannelUnavailable)),
            (Phase::Broken, _) => Action::Done(Err(DriverError::ChannelUnavailable)),
            (Phase::Clearing, Event::LineCleared) => {
                self.phase = Phase::Querying;
                Action::Write(encode_control(CMD_STATUS))
            },
            (Phase::Querying, Event::Written) => {
                self.phase = Phase::Reading;
                if self.polls < u32::MAX {
                    self.polls = self.polls + 1;
                }
                Action::ReadStatus { timeout_ms: self.policy.status_timeout_ms }
            },
            (Phase::Reading, Event::Status(response)) => {
                let status = DeviceStatus::from_response(response);
                match self.pending.take() {
                    None => {
                        self.release(Phase::Free);
                        Action::Done(Ok(Reply::Status(status)))
                    },
                    Some(frame) => {
                        if status.is_idle() {
                            self.phase = Phase::Sending;
                            Action::Write(frame)
                        } else if self.polls_used_up() {
                            self.release(Phase::Free);
                            Action::Done(Err(DriverError::DeviceUnresponsive))
                        } else {
                            self.pending = Some(frame);
                            self.phase = Phase::BackingOff;
                            Action::Backoff { millis: self.policy.backoff_ms }
                        }
                    },
                }
            },
            (Phase::Reading, Event::DeadlineExpired) => {
                self.release(Phase::Free);
                Action::Done(Err(DriverError::DeviceUnresponsive))
            },
            (Phase::BackingOff, Event::DeadlineExpired) => {
                self.release(Phase::Free);
                Action::Done(Err(DriverError::DeviceUnresponsive))
            },
            (Phase::BackingOff, Event::BackoffElapsed) => {
                self.phase = Phase::Clearing;
                Action::ClearLine
            },
            (Phase::Sending, Event::Written) => {
                self.release(Phase::Free);
                Action::Done(Ok(Reply::Sent))
            },
            _ => {
                self.release(Phase::Broken);
                Action::Done(Err(DriverError::ChannelUnavailable))
            },
        }
    }

    /// Lets the line go into `phase`.
    fn release(&mut self, phase: Phase)
        ensures
            final(self)@ == old(self)@.released(phase),
    {
        self.phase = phase;
        self.pending = None;
        self.polls = 0;
    }

    /// Whether the command under way has used up its status queries.
    fn polls_used_up(&self) -> (used_up: bool)
        ensures
            used_up == self@.polls_used_up(),
    {
        match self.policy.max_polls {
            Some(limit) => self.polls >= limit,
            None => false,
        }
    }

    /// Speaks `text` once the device is idle.
    pub fn tts(&mut self, text: String) -> (action: Action)
        ensures
            (final(self)@, action@) == old(self)@.submit(Command::Speak(text)),
    {
        self.submit(&Command::Speak(text))
    }

    /// Sets the volume.
    pub fn volume(&mut self, value: u8) -> (action: Action)
        ensures
            (final(self)@, action@) == old(self)@.submit(Command::SetParam(Param::Volume, value)),
    {
        self.submit(&Command::SetParam(Param::Volume, value))
    }

    /// Sets the speaking rate.
    pub fn speed(&mut self, value: u8) -> (action: Action)
        ensures
            (final(self)@, action@) == old(self)@.submit(Command::SetParam(Param::Speed, value)),
    {
        self.submit(&Command::SetParam(Param::Speed, value))
    }

    /// Sets the pitch.
    pub fn tone(&mut self, value: u8) -> (action: Action)
        ensures
            (final(self)@, action@) == old(self)@.submit(Command::SetParam(Param::Tone, value)),
    {
        self.submit(&Command::SetParam(Param::Tone, value))
    }

    /// Pauses speech.
    pub fn pause(&mut self) -> (action: Action)
        ensures
            (final(self)@, action@) == old(self)@.submit(Command::Pause),
    {
        self.submit(&Command::Pause)
    }

    /// Stops speech.
    pub fn stop(&mut self) -> (action: Action)
        ensures
            (final(self)@, action@) == old(self)@.submit(Command::Stop),
    {
        self.submit(&Command::Stop)
    }

    /// Asks the device whether it is idle.
    pub fn check_status(&mut self) -> (action: Action)
        ensures
            (final(self)@, action@) == old(self)@.submit(Command::QueryStatus),
    {
        self.submit(&Command::QueryStatus)
    }

    /// Plays ring tone `id`.
    pub fn ring(&mut self, id: u8) -> (action: Action)
        ensures
            (final(self)@, action@) == old(self)@.submit(Command::Notify(NotifyKind::Ring, id)),
    {
        self.submit(&Command::Notify(NotifyKind::Ring, id))
    }

    /// Plays message tone `id`.
    pub fn message(&mut self, id: u8) -> (action: Action)
        ensures
            (final(self)@, action@) == old(self)@.submit(
                Command::Notify(NotifyKind::Message, id),
            ),
    {
        self.submit(&Command::Notify(NotifyKind::Message, id))
    }

    /// Plays alert tone `id`.
    pub fn alert(&mut self, id: u8) -> (action: Action)
        ensures
            (final(self)@, action@) == old(self)@.submit(Command::Notify(NotifyKind::Alert, id)),
    {
        self.submit(&Command::Notify(NotifyKind::Alert, id))
    }
}

} // verus!
