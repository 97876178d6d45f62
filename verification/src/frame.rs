//! Frame codec: the fixed-header binary frames that every command is sent in.
//!
//! A frame is the head byte `0xFD`, a big-endian 16-bit length that counts
//! every byte after the length field, the command byte and, for commands that
//! carry text, a codec byte followed by the payload.

use crate::error::DriverError;
use vstd::prelude::*;

verus! {

/// First byte of every frame.
pub const FRAME_HEAD: u8 = 0xFD;

/// Command byte of speech and configuration frames.
pub const CMD_SPEAK: u8 = 0x01;

/// Command byte of the stop frame.
pub const CMD_STOP: u8 = 0x02;

/// Command byte of the pause frame.
pub const CMD_PAUSE: u8 = 0x03;

/// Command byte of the status query frame.
pub const CMD_STATUS: u8 = 0x21;

/// Codec byte announcing a payload in the module's legacy encoding.
pub const CODEC_LEGACY: u8 = 0x01;

/// Largest value the length field can hold.
pub const MAX_LENGTH: usize = 65535;

/// Largest payload that fits a frame beside the command and codec bytes.
pub const MAX_PAYLOAD: usize = 65533;

/// High byte of a length, as it stands first on the wire.
pub open spec fn length_high(length: nat) -> u8 {
    (length / 256) as u8
}

/// Low byte of a length, as it stands second on the wire.
pub open spec fn length_low(length: nat) -> u8 {
    (length % 256) as u8
}

/// The bytes of the frame for `command`, or the reason there is none.
///
/// A payload that would push the length past 65535 has no frame. With a codec
/// the frame carries command, codec and payload; without one it is the bare
/// four-byte control frame.
pub open spec fn frame_of(command: u8, codec: Option<u8>, payload: Seq<u8>) -> Result<
    Seq<u8>,
    DriverError,
> {
    if payload.len() + 2 > MAX_LENGTH {
        Err(DriverError::EncodingTooLarge)
    } else {
        match codec {
            Some(c) => Ok(
                seq![
                    FRAME_HEAD,
                    length_high(payload.len() + 2),
                    length_low(payload.len() + 2),
                    command,
                    c,
                ] + payload,
            ),
            None => Ok(seq![FRAME_HEAD, 0u8, 1u8, command]),
        }
    }
}

/// The value of the length field of `bytes`, read big-endian.
pub open spec fn length_field(bytes: Seq<u8>) -> int
    recommends
        bytes.len() >= 3,
{
    bytes[1] as int * 256 + bytes[2] as int
}

/// Whether `bytes` is one whole frame: the head byte, then a length that
/// counts exactly the bytes that follow it, of which the first is the command.
pub open spec fn is_frame(bytes: Seq<u8>) -> bool {
    &&& bytes.len() >= 4
    &&& bytes[0] == FRAME_HEAD
    &&& length_field(bytes) == bytes.len() - 3
}

/// Builds the frame for `command`.
///
/// Fails with `EncodingTooLarge`, and only then, when the payload plus the
/// command and codec bytes exceed 65535.
pub fn encode(command: u8, codec: Option<u8>, payload: &[u8]) -> (result: Result<
    Vec<u8>,
    DriverError,
>)
    ensures
        match result {
            Ok(bytes) => frame_of(command, codec, payload@) == Ok::<Seq<u8>, DriverError>(bytes@),
            Err(e) => frame_of(command, codec, payload@) == Err::<Seq<u8>, DriverError>(e),
        },
{
    if payload.len() > MAX_PAYLOAD {
        return Err(DriverError::EncodingTooLarge);
    }
    match codec {
        Some(c) => {
            let length: usize = payload.len() + 2;
            let high: u8 = ((length >> 8) & 0xFF) as u8;
            let low: u8 = (length & 0xFF) as u8;
            assert(high == length_high(length as nat) && low == length_low(length as nat)) by {
                assert(((length >> 8) & 0xFF) == length / 256 && (length & 0xFF) == length % 256)
                    by (bit_vector)
                    requires
                        length <= 65535,
                ;
            }
            let mut bytes: Vec<u8> = Vec::with_capacity(length + 3);
            bytes.push(FRAME_HEAD);
            bytes.push(high);
            bytes.push(low);
            bytes.push(command);
            bytes.push(c);
            bytes.extend_from_slice(payload);
            assert(bytes@ =~= seq![FRAME_HEAD, high, low, command, c] + payload@);
            Ok(bytes)
        },
        None => {
            let mut bytes: Vec<u8> = Vec::with_capacity(4);
            bytes.push(FRAME_HEAD);
            bytes.push(0);
            bytes.push(1);
            bytes.push(command);
            assert(bytes@ =~= seq![FRAME_HEAD, 0u8, 1u8, command]);
            Ok(bytes)
        },
    }
}

/// Builds the bare four-byte control frame for `command`.
pub fn encode_control(command: u8) -> (bytes: Vec<u8>)
    ensures
        frame_of(command, None, Seq::<u8>::empty()) == Ok::<Seq<u8>, DriverError>(bytes@),
        bytes@ == seq![FRAME_HEAD, 0u8, 1u8, command],
{
    let mut bytes: Vec<u8> = Vec::with_capacity(4);
    bytes.push(FRAME_HEAD);
    bytes.push(0);
    bytes.push(1);
    bytes.push(command);
    assert(bytes@ =~= seq![FRAME_HEAD, 0u8, 1u8, command]);
    bytes
}

/// Every frame the codec builds is whole: its length field counts exactly the
/// bytes that follow it, its fourth byte is the command, and with a codec the
/// payload starts at the sixth byte.
pub proof fn lemma_frame_layout(command: u8, codec: Option<u8>, payload: Seq<u8>)
    requires
        payload.len() + 2 <= MAX_LENGTH,
    ensures
        frame_of(command, codec, payload) is Ok,
        is_frame(frame_of(command, codec, payload)->Ok_0),
        frame_of(command, codec, payload)->Ok_0[3] == command,
        codec is Some ==> {
            let bytes = frame_of(command, codec, payload)->Ok_0;
            &&& bytes.len() == payload.len() + 5
            &&& length_field(bytes) == payload.len() + 2
            &&& bytes[4] == codec->Some_0
            &&& bytes.subrange(5, bytes.len() as int) == payload
        },
        codec is None ==> {
            let bytes = frame_of(command, codec, payload)->Ok_0;
            &&& bytes.len() == 4
            &&& length_field(bytes) == 1
        },
{
    let bytes = frame_of(command, codec, payload)->Ok_0;
    if codec is Some {
        assert(bytes.subrange(5, bytes.len() as int) =~= payload);
    }
}

} // verus!
