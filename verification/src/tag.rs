//! Notification tags: the short texts, such as `ring_2` or `message_5`, by
//! which callers name a built-in notification sound.

use crate::command::{
    decimal_text, lemma_decimal_text_is_digits, tag_string, tag_text, Command, NotifyKind,
};
use crate::transcoder::ascii_bytes;
use vstd::prelude::*;
use vstd::string::StringSliceAdditionalSpecFns;
use vstd::utf8::is_ascii_chars;

verus! {

/// A notification sound: its family and its number within the family.
#[derive(Clone, Copy, Debug, PartialEq, Eq)]
pub struct NotifyTag {
    /// The family of the sound.
    pub kind: NotifyKind,
    /// The number of the sound within its family.
    pub id: u8,
}

impl NotifyKind {
    /// Number of characters in the family's name.
    pub open spec fn name_len(self) -> nat {
        match self {
            NotifyKind::Ring => 4,
            NotifyKind::Message => 7,
            NotifyKind::Alert => 5,
        }
    }

    /// Code of the first letter of the family's name. No two families share
    /// it.
    pub open spec fn initial(self) -> u8 {
        match self {
            NotifyKind::Ring => 0x72,
            NotifyKind::Message => 0x6D,
            NotifyKind::Alert => 0x61,
        }
    }
}

/// Number of decimal digits of a number below 1000.
pub open spec fn digit_count(number: nat) -> nat {
    if number < 10 {
        1
    } else if number < 100 {
        2
    } else {
        3
    }
}

/// How the bytes of a tag are laid out: the family's name, an underscore,
/// then the digits of the id, most significant first.
pub proof fn lemma_tag_layout(kind: NotifyKind, id: u8)
    ensures
        is_ascii_chars(tag_text(kind, id)),
        ({
            let bytes = ascii_bytes(tag_text(kind, id));
            let first = kind.name_len() as int + 1;
            &&& bytes.len() == first + digit_count(id as nat)
            &&& bytes[0] == kind.initial()
            &&& id < 10 ==> bytes[first] == 0x30 + id
            &&& 10 <= id < 100 ==> bytes[first] == 0x30 + id / 10 && bytes[first + 1] == 0x30 + id
                % 10
            &&& 100 <= id ==> bytes[first] == 0x30 + id / 100 && bytes[first + 1] == 0x30 + (id
                / 10) % 10 && bytes[first + 2] == 0x30 + id % 10
        }),
{
    reveal_strlit("_");
    reveal_strlit("ring");
    reveal_strlit("message");
    reveal_strlit("alert");
    reveal_with_fuel(decimal_text, 3);
    lemma_decimal_text_is_digits(id as nat);
}

/// Whether a byte is the code of a decimal digit.
fn is_digit(byte: u8) -> (digit: bool)
    ensures
        digit == (0x30 <= byte <= 0x39),
{
    0x30 <= byte && byte <= 0x39
}

/// Reads family and id off the bytes of a tag, without checking every byte.
/// Whatever tag the bytes spell, this finds it; bytes that spell no tag may
/// still be read as one.
fn read_tag(bytes: &[u8]) -> (found: Option<(NotifyKind, u8)>)
    ensures
        forall|kind: NotifyKind, id: u8|
            bytes@ == ascii_bytes(#[trigger] tag_text(kind, id)) ==> found == Some((kind, id)),
{
    let length: usize = bytes.len();
    if length < 6 || length > 11 {
        assert forall|kind: NotifyKind, id: u8|
            bytes@ == ascii_bytes(#[trigger] tag_text(kind, id)) implies false by {
            lemma_tag_layout(kind, id);
        }
        return None;
    }
    let initial: u8 = bytes[0];
    let (kind, name_len): (NotifyKind, usize) = if initial == 0x72 {
        (NotifyKind::Ring, 4)
    } else if initial == 0x6D {
        (NotifyKind::Message, 7)
    } else if initial == 0x61 {
        (NotifyKind::Alert, 5)
    } else {
        assert forall|kind: NotifyKind, id: u8|
            bytes@ == ascii_bytes(#[trigger] tag_text(kind, id)) implies false by {
            lemma_tag_layout(kind, id);
        }
        return None;
    };
    let first: usize = name_len + 1;
    if length <= first || length > first + 3 {
        assert forall|kind: NotifyKind, id: u8|
            bytes@ == ascii_bytes(#[trigger] tag_text(kind, id)) implies false by {
            lemma_tag_layout(kind, id);
        }
        return None;
    }
    let count: usize = length - first;
    let high: u8 = bytes[first];
    let middle: u8 = if count >= 2 {
        bytes[first + 1]
    } else {
        0x30
    };
    let low: u8 = if count >= 3 {
        bytes[first + 2]
    } else {
        0x30
    };
    if !is_digit(high) || !is_digit(middle) || !is_digit(low) {
        assert forall|kind: NotifyKind, id: u8|
            bytes@ == ascii_bytes(#[trigger] tag_text(kind, id)) implies false by {
            lemma_tag_layout(kind, id);
        }
        return None;
    }
    let h: u16 = (high - 0x30) as u16;
    let m: u16 = (middle - 0x30) as u16;
    let l: u16 = (low - 0x30) as u16;
    let value: u16 = if count == 1 {
        h
    } else if count == 2 {
        h * 10 + m
    } else {
        h * 100 + m * 10 + l
    };
    if value > 255 {
        assert forall|kind: NotifyKind, id: u8|
            bytes@ == ascii_bytes(#[trigger] tag_text(kind, id)) implies false by {
            lemma_tag_layout(kind, id);
        }
        return None;
    }
    assert forall|other: NotifyKind, id: u8|
        bytes@ == ascii_bytes(#[trigger] tag_text(other, id)) implies other == kind && id
        == value by {
        lemma_tag_layout(other, id);
    }
    Some((kind, value as u8))
}

/// The sound that `text` spells, if it spells one.
pub open spec fn tag_of(text: Seq<char>) -> Option<NotifyTag> {
    if exists|kind: NotifyKind, id: u8| text == #[trigger] tag_text(kind, id) {
        let (kind, id) = choose|kind: NotifyKind, id: u8| text == #[trigger] tag_text(kind, id);
        Some(NotifyTag { kind, id })
    } else {
        None
    }
}

impl NotifyTag {
    /// The tag as text.
    pub open spec fn text(self) -> Seq<char> {
        tag_text(self.kind, self.id)
    }

    /// Reads a tag. Only the exact spelling is a tag: one of the names
    /// `ring`, `message`, `alert`, an underscore, and a number from 0 to 255
    /// in decimal without leading zeros.
    pub fn parse(tag: &str) -> (result: Option<NotifyTag>)
        ensures
            result == tag_of(tag@),
            match result {
                Some(found) => tag@ == found.text(),
                None => forall|kind: NotifyKind, id: u8| tag@ != #[trigger] tag_text(kind, id),
            },
    {
        let result = NotifyTag::find(tag);
        proof {
            if let Some(found) = result {
                let (kind, id) = choose|kind: NotifyKind, id: u8|
                    tag@ == #[trigger] tag_text(kind, id);
                lemma_tag_spelling_is_unique(kind, id, found.kind, found.id);
            }
        }
        result
    }

    /// Reads a tag by its layout, then holds the reading against the text.
    fn find(tag: &str) -> (result: Option<NotifyTag>)
        ensures
            match result {
                Some(found) => tag@ == found.text(),
                None => forall|kind: NotifyKind, id: u8| tag@ != #[trigger] tag_text(kind, id),
            },
    {
        if !tag.is_ascii() {
            assert forall|kind: NotifyKind, id: u8| tag@ != #[trigger] tag_text(kind, id) by {
                lemma_tag_layout(kind, id);
            }
            return None;
        }
        proof {
            vstd::string::is_ascii_spec_bytes(tag);
            assert(tag.spec_bytes() =~= ascii_bytes(tag@));
        }
        match read_tag(tag.as_bytes()) {
            Some((kind, id)) => {
                let spelling = tag_string(kind, id);
                let given = tag.to_owned();
                if spelling == given {
                    Some(NotifyTag { kind, id })
                } else {
                    assert forall|other: NotifyKind, number: u8|
                        tag@ != #[trigger] tag_text(other, number) by {
                        if tag@ == tag_text(other, number) {
                            assert(other == kind && number == id);
                        }
                    }
                    None
                }
            },
            None => {
                assert forall|kind: NotifyKind, id: u8| tag@ != #[trigger] tag_text(kind, id) by {
                    if tag@ == tag_text(kind, id) {
                        assert(tag.spec_bytes() == ascii_bytes(tag_text(kind, id)));
                    }
                }
                None
            },
        }
    }

    /// Writes the tag as text.
    pub fn to_text(&self) -> (text: String)
        ensures
            text@ == self.text(),
    {
        tag_string(self.kind, self.id)
    }

    /// The command that plays the sound.
    pub fn command(&self) -> (command: Command)
        ensures
            command == Command::Notify(self.kind, self.id),
    {
        Command::Notify(self.kind, self.id)
    }
}

/// No two sounds share a spelling.
pub proof fn lemma_tag_spelling_is_unique(kind: NotifyKind, id: u8, other: NotifyKind, number: u8)
    requires
        tag_text(kind, id) == tag_text(other, number),
    ensures
        kind == other,
        id == number,
{
    lemma_tag_layout(kind, id);
    lemma_tag_layout(other, number);
}

/// Reading a tag undoes writing it.
pub proof fn lemma_written_tag_reads_back(kind: NotifyKind, id: u8)
    ensures
        tag_of(tag_text(kind, id)) == Some(NotifyTag { kind, id }),
{
    let (k, i) = choose|k: NotifyKind, i: u8| tag_text(kind, id) == #[trigger] tag_text(k, i);
    lemma_tag_spelling_is_unique(kind, id, k, i);
}

} // verus!
