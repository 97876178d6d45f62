//! Command builder: which frame each operation becomes.
//!
//! Speech, parameter settings and notification tones all travel in the same
//! frame shape, command `0x01` with codec `0x01`; the latter two as short
//! bracketed configuration texts such as `[v2]` or `[message_5]`. Status
//! query, pause and stop are bare four-byte control frames.

use crate::error::DriverError;
use crate::frame::{
    encode_control, frame_of, is_frame, lemma_frame_layout, length_field, length_high, length_low,
    CMD_PAUSE, CMD_SPEAK, CMD_STATUS, CMD_STOP, CODEC_LEGACY, FRAME_HEAD, MAX_LENGTH, MAX_PAYLOAD,
};
use crate::transcoder::{
    ascii_bytes, encoder_takes, lemma_ascii_text_stands_for_itself, transcoded, GbkEncodedString,
};
use vstd::prelude::*;
use vstd::string::StringExecFns;
use vstd::utf8::is_ascii_chars;

verus! {

/// A voice parameter of the module.
#[derive(Clone, Copy, Debug, PartialEq, Eq, Structural)]
pub enum Param {
    /// Loudness, key `v`.
    Volume,
    /// Speaking rate, key `s`.
    Speed,
    /// Pitch, key `t`.
    Tone,
}

/// A family of built-in notification sounds.
#[derive(Clone, Copy, Debug, PartialEq, Eq, Structural)]
pub enum NotifyKind {
    /// Ring tones, `ring`.
    Ring,
    /// Message tones, `message`.
    Message,
    /// Alert tones, `alert`.
    Alert,
}

/// One operation of the module.
#[derive(Clone, Debug, PartialEq, Eq)]
pub enum Command {
    /// Speak a text. The only command that waits for an idle device.
    Speak(String),
    /// Set a voice parameter. The value is passed on as it is: the device,
    /// not the driver, decides which values it honours.
    SetParam(Param, u8),
    /// Play a built-in notification sound.
    Notify(NotifyKind, u8),
    /// Ask whether the device is idle.
    QueryStatus,
    /// Pause speech.
    Pause,
    /// Stop speech.
    Stop,
}

/// The character for one decimal digit.
pub open spec fn digit_char(digit: nat) -> char
    recommends
        digit < 10,
{
    if digit == 0 {
        '0'
    } else if digit == 1 {
        '1'
    } else if digit == 2 {
        '2'
    } else if digit == 3 {
        '3'
    } else if digit == 4 {
        '4'
    } else if digit == 5 {
        '5'
    } else if digit == 6 {
        '6'
    } else if digit == 7 {
        '7'
    } else if digit == 8 {
        '8'
    } else {
        '9'
    }
}

/// A number written in decimal, without sign or leading zeros.
pub open spec fn decimal_text(number: nat) -> Seq<char>
    decreases number,
{
    if number < 10 {
        seq![digit_char(number)]
    } else {
        decimal_text(number / 10).push(digit_char(number % 10))
    }
}

impl Param {
    /// The one-letter key of the parameter.
    pub open spec fn key_text(self) -> Seq<char> {
        match self {
            Param::Volume => "v"@,
            Param::Speed => "s"@,
            Param::Tone => "t"@,
        }
    }

    /// The one-letter key of the parameter.
    pub fn key(&self) -> (key: &'static str)
        ensures
            key@ == self.key_text(),
    {
        match self {
            Param::Volume => "v",
            Param::Speed => "s",
            Param::Tone => "t",
        }
    }
}

impl NotifyKind {
    /// The name of the family, as it stands in a notification tag.
    pub open spec fn name_text(self) -> Seq<char> {
        match self {
            NotifyKind::Ring => "ring"@,
            NotifyKind::Message => "message"@,
            NotifyKind::Alert => "alert"@,
        }
    }

    /// The name of the family, as it stands in a notification tag.
    pub fn name(&self) -> (name: &'static str)
        ensures
            name@ == self.name_text(),
    {
        match self {
            NotifyKind::Ring => "ring",
            NotifyKind::Message => "message",
            NotifyKind::Alert => "alert",
        }
    }
}

/// The configuration text that sets `param` to `value`: `[`, the key, the
/// value in decimal, `]`.
pub open spec fn config_text(param: Param, value: u8) -> Seq<char> {
    "["@ + param.key_text() + decimal_text(value as nat) + "]"@
}

/// The tag of a notification sound: the family's name, `_`, the id in
/// decimal.
pub open spec fn tag_text(kind: NotifyKind, id: u8) -> Seq<char> {
    kind.name_text() + "_"@ + decimal_text(id as nat)
}

/// The configuration text that plays a notification sound: its tag in
/// brackets.
pub open spec fn notify_text(kind: NotifyKind, id: u8) -> Seq<char> {
    "["@ + tag_text(kind, id) + "]"@
}

/// The frame that carries `text`, or the reason there is none.
///
/// The text is transcoded and framed. A text too long for the encoder's
/// buffer on this machine, which is far longer than any frame, counts as too
/// large.
pub open spec fn text_frame_of(text: Seq<char>) -> Result<Seq<u8>, DriverError> {
    if encoder_takes(text) {
        frame_of(CMD_SPEAK, Some(CODEC_LEGACY), transcoded(text))
    } else {
        Err(DriverError::EncodingTooLarge)
    }
}

impl Command {
    /// The text the command carries, if it carries one.
    pub open spec fn payload_text(self) -> Option<Seq<char>> {
        match self {
            Command::Speak(text) => Some(text@),
            Command::SetParam(param, value) => Some(config_text(param, value)),
            Command::Notify(kind, id) => Some(notify_text(kind, id)),
            Command::QueryStatus => None,
            Command::Pause => None,
            Command::Stop => None,
        }
    }

    /// The command byte of the command's frame.
    pub open spec fn command_byte(self) -> u8 {
        match self {
            Command::Speak(_) => CMD_SPEAK,
            Command::SetParam(_, _) => CMD_SPEAK,
            Command::Notify(_, _) => CMD_SPEAK,
            Command::QueryStatus => CMD_STATUS,
            Command::Pause => CMD_PAUSE,
            Command::Stop => CMD_STOP,
        }
    }

    /// The bytes of the command's frame, or the reason it has none.
    pub open spec fn frame_bytes(self) -> Result<Seq<u8>, DriverError> {
        match self.payload_text() {
            Some(text) => text_frame_of(text),
            None => frame_of(self.command_byte(), None, Seq::<u8>::empty()),
        }
    }

    /// Whether the command is sent only to an idle device.
    pub open spec fn needs_idle(self) -> bool {
        self is Speak
    }

    /// Whether the command is sent only to an idle device. Speech is; every
    /// other command goes out at once.
    pub fn waits_for_idle(&self) -> (waits: bool)
        ensures
            waits == self.needs_idle(),
    {
        match self {
            Command::Speak(_) => true,
            _ => false,
        }
    }

    /// Whether the command has a frame.
    pub fn has_frame(&self) -> (framed: bool)
        ensures
            framed == (self.frame_bytes() is Ok),
    {
        self.frame().is_ok()
    }

    /// Builds the command's frame.
    ///
    /// Fails with `EncodingTooLarge`, and only then, when the command carries
    /// a text whose encoding is longer than 65533 bytes, or which the machine
    /// cannot encode at all.
    pub fn frame(&self) -> (result: Result<Vec<u8>, DriverError>)
        ensures
            match result {
                Ok(bytes) => self.frame_bytes() == Ok::<Seq<u8>, DriverError>(bytes@),
                Err(e) => self.frame_bytes() == Err::<Seq<u8>, DriverError>(e),
            },
    {
        match self {
            Command::Speak(text) => text_frame(text.as_str()),
            Command::SetParam(param, value) => {
                let text = config_string(*param, *value);
                text_frame(text.as_str())
            },
            Command::Notify(kind, id) => {
                let text = notify_string(*kind, *id);
                text_frame(text.as_str())
            },
            Command::QueryStatus => Ok(encode_control(CMD_STATUS)),
            Command::Pause => Ok(encode_control(CMD_PAUSE)),
            Command::Stop => Ok(encode_control(CMD_STOP)),
        }
    }
}

/// Writes one decimal digit.
fn digit_str(digit: u8) -> (text: &'static str)
    requires
        digit < 10,
    ensures
        text@ == seq![digit_char(digit as nat)],
{
    proof {
        reveal_strlit("0");
        reveal_strlit("1");
        reveal_strlit("2");
        reveal_strlit("3");
        reveal_strlit("4");
        reveal_strlit("5");
        reveal_strlit("6");
        reveal_strlit("7");
        reveal_strlit("8");
        reveal_strlit("9");
    }
    let text = match digit {
        0 => "0",
        1 => "1",
        2 => "2",
        3 => "3",
        4 => "4",
        5 => "5",
        6 => "6",
        7 => "7",
        8 => "8",
        _ => "9",
    };
    assert(text@ =~= seq![digit_char(digit as nat)]);
    text
}

/// Writes `value` in decimal, without leading zeros.
pub fn decimal(value: u8) -> (text: String)
    ensures
        text@ == decimal_text(value as nat),
{
    let mut text = String::new();
    if value >= 100 {
        text.append(digit_str(value / 100));
    }
    if value >= 10 {
        text.append(digit_str((value / 10) % 10));
    }
    text.append(digit_str(value % 10));
    proof {
        reveal_with_fuel(decimal_text, 3);
        assert(text@ =~= decimal_text(value as nat));
    }
    text
}

/// Writes the configuration text that sets `param` to `value`.
pub fn config_string(param: Param, value: u8) -> (text: String)
    ensures
        text@ == config_text(param, value),
{
    let mut text = String::from_str("[");
    text.append(param.key());
    let digits = decimal(value);
    text.append(digits.as_str());
    text.append("]");
    text
}

/// Writes the tag of a notification sound.
pub fn tag_string(kind: NotifyKind, id: u8) -> (text: String)
    ensures
        text@ == tag_text(kind, id),
{
    let mut text = String::from_str(kind.name());
    text.append("_");
    let digits = decimal(id);
    text.append(digits.as_str());
    text
}

/// Writes the configuration text that plays a notification sound.
pub fn notify_string(kind: NotifyKind, id: u8) -> (text: String)
    ensures
        text@ == notify_text(kind, id),
{
    let mut text = String::from_str("[");
    let tag = tag_string(kind, id);
    text.append(tag.as_str());
    text.append("]");
    text
}

/// Transcodes and frames a text.
pub fn text_frame(text: &str) -> (result: Result<Vec<u8>, DriverError>)
    ensures
        match result {
            Ok(bytes) => text_frame_of(text@) == Ok::<Seq<u8>, DriverError>(bytes@),
            Err(e) => text_frame_of(text@) == Err::<Seq<u8>, DriverError>(e),
        },
{
    match GbkEncodedString::try_new(text) {
        Some(encoded) => encoded.to_snr9816(),
        None => Err(DriverError::EncodingTooLarge),
    }
}

/// A number below 256 is written with one to three characters, all of them
/// digits.
pub proof fn lemma_decimal_text_is_digits(number: nat)
    requires
        number < 256,
    ensures
        1 <= decimal_text(number).len() <= 3,
        is_ascii_chars(decimal_text(number)),
        forall|i: int|
            0 <= i < decimal_text(number).len() ==> '0' <= #[trigger] decimal_text(number)[i]
                <= '9',
{
    reveal_with_fuel(decimal_text, 3);
}

/// A configuration text is plain ASCII of at most six characters.
pub proof fn lemma_config_text_is_ascii(param: Param, value: u8)
    ensures
        is_ascii_chars(config_text(param, value)),
        4 <= config_text(param, value).len() <= 6,
{
    reveal_strlit("[");
    reveal_strlit("]");
    reveal_strlit("v");
    reveal_strlit("s");
    reveal_strlit("t");
    lemma_decimal_text_is_digits(value as nat);
}

/// The text of a notification is plain ASCII of at most thirteen characters.
pub proof fn lemma_notify_text_is_ascii(kind: NotifyKind, id: u8)
    ensures
        is_ascii_chars(notify_text(kind, id)),
        8 <= notify_text(kind, id).len() <= 13,
{
    reveal_strlit("[");
    reveal_strlit("]");
    reveal_strlit("_");
    reveal_strlit("ring");
    reveal_strlit("message");
    reveal_strlit("alert");
    lemma_decimal_text_is_digits(id as nat);
}

/// The frame of a plain ASCII text that fits: the head, the length of the
/// text plus two, command and codec `0x01`, then the text's own bytes.
pub proof fn lemma_ascii_text_frame(text: Seq<char>)
    requires
        is_ascii_chars(text),
        text.len() <= MAX_PAYLOAD,
    ensures
        text_frame_of(text) == Ok::<Seq<u8>, DriverError>(
            seq![
                FRAME_HEAD,
                length_high(text.len() + 2),
                length_low(text.len() + 2),
                CMD_SPEAK,
                CODEC_LEGACY,
            ] + ascii_bytes(text),
        ),
{
    lemma_ascii_text_stands_for_itself(text);
}

/// Setting a parameter always has a frame, and its payload is the
/// configuration text, byte for character.
pub proof fn lemma_config_frame(param: Param, value: u8)
    ensures
        Command::SetParam(param, value).frame_bytes() == Ok::<Seq<u8>, DriverError>(
            seq![
                FRAME_HEAD,
                0u8,
                (config_text(param, value).len() + 2) as u8,
                CMD_SPEAK,
                CODEC_LEGACY,
            ] + ascii_bytes(config_text(param, value)),
        ),
        transcoded(config_text(param, value)) == ascii_bytes(config_text(param, value)),
{
    lemma_config_text_is_ascii(param, value);
    lemma_ascii_text_frame(config_text(param, value));
    lemma_ascii_text_stands_for_itself(config_text(param, value));
}

/// Playing a notification sound always has a frame, and its payload is the
/// bracketed tag, byte for character.
pub proof fn lemma_notify_frame(kind: NotifyKind, id: u8)
    ensures
        Command::Notify(kind, id).frame_bytes() == Ok::<Seq<u8>, DriverError>(
            seq![
                FRAME_HEAD,
                0u8,
                (notify_text(kind, id).len() + 2) as u8,
                CMD_SPEAK,
                CODEC_LEGACY,
            ] + ascii_bytes(notify_text(kind, id)),
        ),
        transcoded(notify_text(kind, id)) == ascii_bytes(notify_text(kind, id)),
{
    lemma_notify_text_is_ascii(kind, id);
    lemma_ascii_text_frame(notify_text(kind, id));
    lemma_ascii_text_stands_for_itself(notify_text(kind, id));
}

/// Status query, pause and stop are exactly four bytes: the head, the length
/// `0x0001`, the command byte.
pub proof fn lemma_control_frame(command: Command)
    requires
        command is QueryStatus || command is Pause || command is Stop,
    ensures
        command.frame_bytes() == Ok::<Seq<u8>, DriverError>(
            seq![FRAME_HEAD, 0u8, 1u8, command.command_byte()],
        ),
        command.frame_bytes()->Ok_0.len() == 4,
        length_field(command.frame_bytes()->Ok_0) == 1,
{
}

/// A speech frame starts `0xFD, hi, lo, 0x01, 0x01`, where `hi` and `lo` hold
/// the length of the transcoded text plus two, big-endian; the transcoded text
/// follows.
pub proof fn lemma_speech_frame(text: String)
    requires
        encoder_takes(text@),
        transcoded(text@).len() + 2 <= MAX_LENGTH,
    ensures
        Command::Speak(text).frame_bytes() is Ok,
        ({
            let bytes = Command::Speak(text).frame_bytes()->Ok_0;
            let length = transcoded(text@).len() + 2;
            &&& bytes.len() == transcoded(text@).len() + 5
            &&& bytes.subrange(0, 5) == seq![
                FRAME_HEAD,
                length_high(length),
                length_low(length),
                CMD_SPEAK,
                CODEC_LEGACY,
            ]
            &&& length_field(bytes) == length
            &&& bytes.subrange(5, bytes.len() as int) == transcoded(text@)
        }),
{
    let bytes = Command::Speak(text).frame_bytes()->Ok_0;
    lemma_frame_layout(CMD_SPEAK, Some(CODEC_LEGACY), transcoded(text@));
    assert(bytes.subrange(0, 5) =~= seq![
        FRAME_HEAD,
        length_high(transcoded(text@).len() + 2),
        length_low(transcoded(text@).len() + 2),
        CMD_SPEAK,
        CODEC_LEGACY,
    ]);
}

/// A command either has a whole frame that carries its command byte, or is
/// refused as too large; only a command with a text can be refused.
pub proof fn lemma_command_frame_is_whole(command: Command)
    ensures
        match command.frame_bytes() {
            Ok(bytes) => is_frame(bytes) && bytes[3] == command.command_byte(),
            Err(e) => e == DriverError::EncodingTooLarge && command.payload_text() is Some,
        },
{
    match command.payload_text() {
        Some(text) => {
            if text_frame_of(text) is Ok {
                lemma_frame_layout(CMD_SPEAK, Some(CODEC_LEGACY), transcoded(text));
            }
        },
        None => {
            lemma_frame_layout(command.command_byte(), None, Seq::<u8>::empty());
        },
    }
}

} // verus!
