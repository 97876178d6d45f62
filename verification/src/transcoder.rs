//! Text transcoder: from Unicode text to the legacy double-byte encoding the
//! module expects.
//!
//! The conversion itself is done by `encoding_rs`. Characters the legacy
//! encoding cannot represent are substituted, never refused, so transcoding
//! has no failure of its own.

use crate::error::DriverError;
use crate::frame::{encode, frame_of, CMD_SPEAK, CODEC_LEGACY};
use vstd::prelude::*;
use vstd::string::StringSliceAdditionalSpecFns;
use vstd::utf8::{encode_utf8, is_ascii_chars};

verus! {

/// Whether the encoder can be given `text`.
///
/// The encoder hands plain ASCII back without a buffer of its own, whatever
/// its length. For any other text it sizes a buffer from the length of the
/// text, and lets it grow to several times that length where characters are
/// substituted; it panics when that size passes what the machine can address.
/// A text of no more than a sixty-fourth of the address space stays clear of
/// that on every machine.
pub open spec fn encoder_takes(text: Seq<char>) -> bool {
    is_ascii_chars(text) || encode_utf8(text).len() <= usize::MAX / 64
}

// What `encoding_rs::GBK.encode` makes of a text that is not plain ASCII.
pub uninterp spec fn gbk_bytes(text: Seq<char>) -> Seq<u8>;

/// The legacy encoding of `text`: plain ASCII stands for itself, byte for
/// byte; any other text is what the GBK encoder makes of it.
pub open spec fn transcoded(text: Seq<char>) -> Seq<u8> {
    if is_ascii_chars(text) {
        encode_utf8(text)
    } else {
        gbk_bytes(text)
    }
}

/// Calls `encoding_rs::GBK.encode` and keeps the encoded bytes.
///
/// Believed, not proved: the encoder hands an all-ASCII text back as it is,
/// as its documentation says, and what it makes of any other text depends
/// on the text alone. The encoder panics when the size of its buffer
/// overflows; only texts that keep clear of that are let in.
#[verifier::external_body]
fn gbk_encode(text: &str) -> (bytes: Vec<u8>)
    requires
        encoder_takes(text@),
    ensures
        bytes@ == if is_ascii_chars(text@) {
            encode_utf8(text@)
        } else {
            gbk_bytes(text@)
        },
{
    encoding_rs::GBK.encode(text).0.into_owned()
}

/// A text in the module's legacy encoding.
#[derive(Clone, Debug, PartialEq, Eq)]
pub struct GbkEncodedString {
    buffer: Vec<u8>,
}

impl View for GbkEncodedString {
    type V = Seq<u8>;

    closed spec fn view(&self) -> Seq<u8> {
        self.buffer@
    }
}

impl GbkEncodedString {
    /// Transcodes `input`. Empty input gives an empty encoding, and plain
    /// ASCII of any length its own bytes.
    ///
    /// The one thing asked of the text is that the machine can hold the
    /// encoder's buffer for it: see [`encoder_takes`]. [`GbkEncodedString::try_new`]
    /// asks nothing.
    pub fn new(input: &str) -> (encoded: Self)
        requires
            encoder_takes(input@),
        ensures
            encoded@ == transcoded(input@),
    {
        GbkEncodedString { buffer: gbk_encode(input) }
    }

    /// Whether the encoder can be given `input`.
    pub fn fits_encoder(input: &str) -> (fits: bool)
        ensures
            fits == encoder_takes(input@),
    {
        input.is_ascii() || input.as_bytes().len() <= usize::MAX / 64
    }

    /// Transcodes `input` if the encoder can be given it, and says so if not.
    pub fn try_new(input: &str) -> (encoded: Option<Self>)
        ensures
            encoded is Some <==> encoder_takes(input@),
            encoded is Some ==> encoded->Some_0@ == transcoded(input@),
    {
        if GbkEncodedString::fits_encoder(input) {
            Some(GbkEncodedString::new(input))
        } else {
            None
        }
    }

    /// The encoded bytes.
    pub fn as_bytes(&self) -> (bytes: &[u8])
        ensures
            bytes@ == self@,
    {
        self.buffer.as_slice()
    }

    /// Number of encoded bytes.
    pub fn len(&self) -> (length: usize)
        ensures
            length == self@.len(),
    {
        self.buffer.len()
    }

    /// The speech frame that carries this text.
    ///
    /// Fails with `EncodingTooLarge`, and only then, when the encoded text is
    /// longer than 65533 bytes.
    pub fn to_snr9816(&self) -> (result: Result<Vec<u8>, DriverError>)
        ensures
            match result {
                Ok(bytes) => frame_of(CMD_SPEAK, Some(CODEC_LEGACY), self@) == Ok::<
                    Seq<u8>,
                    DriverError,
                >(bytes@),
                Err(e) => frame_of(CMD_SPEAK, Some(CODEC_LEGACY), self@) == Err::<
                    Seq<u8>,
                    DriverError,
                >(e),
            },
    {
        encode(CMD_SPEAK, Some(CODEC_LEGACY), self.buffer.as_slice())
    }
}

/// Empty text transcodes to no bytes at all.
pub proof fn lemma_empty_text_is_empty()
    ensures
        transcoded(Seq::<char>::empty()) == Seq::<u8>::empty(),
{
    vstd::utf8::is_ascii_chars_encode_utf8(Seq::<char>::empty());
    assert(encode_utf8(Seq::<char>::empty()) =~= Seq::<u8>::empty());
}

/// The bytes of a plain ASCII text: each character's own code.
pub open spec fn ascii_bytes(text: Seq<char>) -> Seq<u8> {
    Seq::new(text.len(), |i: int| text[i] as u8)
}

/// Plain ASCII text transcodes to one byte per character, the character's own
/// code.
pub proof fn lemma_ascii_text_stands_for_itself(text: Seq<char>)
    requires
        is_ascii_chars(text),
    ensures
        transcoded(text) == ascii_bytes(text),
        encode_utf8(text).len() == text.len(),
{
    vstd::utf8::is_ascii_chars_encode_utf8(text);
    assert(transcoded(text) =~= ascii_bytes(text));
}

} // verus!
