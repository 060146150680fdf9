//! Framing of messages on a connection: four bytes of length, highest first, then the message.
use crate::text::{before_byte, boundary, lemma_cut_after_ascii, text_before};
use vstd::prelude::*;
use vstd::utf8::{decode_utf8, encode_utf8, valid_utf8};

verus! {

/// The longest message that is read.
pub const MAX_MESSAGE_LEN: usize = 8 * 1024;

/// How much room a connection's message buffer starts with.
pub const INITIAL_BUF: usize = 4 * 1024;

/// The number that four bytes write, highest byte first.
pub open spec fn big_endian(bytes: Seq<u8>) -> int {
    bytes[0] * 0x100_0000 + bytes[1] * 0x1_0000 + bytes[2] * 0x100 + bytes[3]
}

/// The length that a prefix announces, where a message of that length is read.
pub open spec fn announced_length(prefix: Seq<u8>) -> Option<int> {
    let length = big_endian(prefix);
    if length == 0 || length > MAX_MESSAGE_LEN {
        None
    } else {
        Some(length)
    }
}

/// The bytes sent ahead of a payload: the low 32 bits of its length.
pub fn length_prefix(payload: &[u8]) -> (prefix: [u8; 4])
    ensures
        big_endian(prefix@) == payload@.len() as int % 0x1_0000_0000,
{
    let length: u64 = payload.len() as u64 % 0x1_0000_0000u64;
    let first: u8 = (length / 0x100_0000) as u8;
    let second: u8 = (length / 0x1_0000 % 0x100) as u8;
    let third: u8 = (length / 0x100 % 0x100) as u8;
    let fourth: u8 = (length % 0x100) as u8;
    [first, second, third, fourth]
}

/// Reads the length that a prefix announces; a length of zero, or one above the longest message,
/// is refused.
pub fn message_length(prefix: &[u8; 4]) -> (length: Option<usize>)
    ensures
        match length {
            Some(n) => announced_length(prefix@) == Some(n as int),
            None => announced_length(prefix@) is None,
        },
{
    let length: u32 = prefix[0] as u32 * 0x100_0000 + prefix[1] as u32 * 0x1_0000
        + prefix[2] as u32 * 0x100 + prefix[3] as u32;
    let length: usize = length as usize;
    if length == 0 || length > MAX_MESSAGE_LEN {
        None
    } else {
        Some(length)
    }
}

/// Four bytes are determined by the number that they write, and so is a prefix by the length that it
/// announces.
pub proof fn law_number_determines_its_bytes(left: Seq<u8>, right: Seq<u8>)
    requires
        left.len() == 4,
        right.len() == 4,
        big_endian(left) == big_endian(right),
    ensures
        left == right,
{
    assert(left =~= right);
}

/// The prefix of a payload of one byte up to the longest message announces exactly that
/// payload's length; the prefix of an empty or a longer payload, up to 4 GiB, is refused.
pub proof fn law_prefix_announces_the_payload(payload: Seq<u8>, prefix: Seq<u8>)
    requires
        prefix.len() == 4,
        big_endian(prefix) == payload.len() as int % 0x1_0000_0000,
        payload.len() < 0x1_0000_0000,
    ensures
        announced_length(prefix) == if 1 <= payload.len() <= MAX_MESSAGE_LEN {
            Some(payload.len() as int)
        } else {
            None
        },
{
}

/// `std::str::from_utf8`: bytes that are UTF-8 are taken as the text that they encode, all others
/// are refused.
#[verifier::external_body]
fn utf8_text(bytes: &[u8]) -> (text: Option<&str>)
    ensures
        match text {
            Some(text) => valid_utf8(bytes@) && encode_utf8(text@) == bytes@,
            None => !valid_utf8(bytes@),
        },
{
    std::str::from_utf8(bytes).ok()
}

/// Who sends a message.
#[derive(Debug, Clone, Copy, PartialEq, Eq, Structural)]
pub enum Source {
    Bot,
    User,
    Unknown,
}

impl Source {
    /// The sender that a code stands for.
    pub open spec fn of(code: Seq<char>) -> Source {
        if code == "0"@ {
            Source::Bot
        } else if code == "1"@ {
            Source::User
        } else {
            Source::Unknown
        }
    }

    /// Reads a sender's code.
    pub fn from_str(s: &str) -> (source: Self)
        ensures
            source == Source::of(s@),
    {
        if crate::text::same_text(s, "0") {
            Source::Bot
        } else if crate::text::same_text(s, "1") {
            Source::User
        } else {
            Source::Unknown
        }
    }
}

/// Each sender has a code of one character.
pub proof fn law_source_codes(code: char)
    ensures
        Source::of(seq![code]) == if code == '0' {
            Source::Bot
        } else if code == '1' {
            Source::User
        } else {
            Source::Unknown
        },
{
    reveal_strlit("0");
    reveal_strlit("1");
    assert(seq![code][0] == code);
    assert(code == '0' ==> seq![code] =~= "0"@);
    assert(code == '1' ==> seq![code] =~= "1"@);
}

/// What a message body turns out to be.
#[derive(Debug, PartialEq, Eq)]
pub enum Received<'a> {
    /// Not UTF-8: the connection is given up.
    NotText,
    /// Of one byte or none, a sign of life: nothing is done.
    Ignored,
    /// Its first byte is not a whole character.
    Malformed,
    /// From a bot.
    Bot(&'a str),
    /// From a user.
    User(&'a str),
    /// From nobody known.
    UnknownSource(&'a str),
}

impl<'a> Received<'a> {
    /// What a message body is.
    pub open spec fn says(self, body: Seq<u8>) -> bool {
        let text = decode_utf8(body);
        let sent = valid_utf8(body) && body.len() > 1 && boundary(text, 1);
        let source = Source::of(before_byte(text, 1));
        match self {
            Received::NotText => !valid_utf8(body),
            Received::Ignored => valid_utf8(body) && body.len() <= 1,
            Received::Malformed => valid_utf8(body) && body.len() > 1 && !boundary(text, 1),
            Received::Bot(message) => sent && source is Bot && message@ == text,
            Received::User(message) => sent && source is User && message@ == text,
            Received::UnknownSource(message) => sent && source is Unknown && message@ == text,
        }
    }
}

/// Reads a message body as far as its sender.
pub fn receive(body: &[u8]) -> (received: Received<'_>)
    ensures
        received.says(body@),
{
    let message = match utf8_text(body) {
        Some(message) => message,
        None => return Received::NotText,
    };
    proof {
        vstd::utf8::encode_utf8_decode_utf8(message@);
    }
    if body.len() <= 1 {
        return Received::Ignored;
    }
    if !message.is_char_boundary(1) {
        return Received::Malformed;
    }
    match Source::from_str(text_before(message, 1)) {
        Source::Bot => Received::Bot(message),
        Source::User => Received::User(message),
        Source::Unknown => Received::UnknownSource(message),
    }
}

/// A message of two characters or more that begins with a character of one byte, and is no longer
/// than the longest, arrives as it was sent: its prefix announces its length, and its body is read
/// as that message, of the sender that its first character stands for.
pub proof fn law_sent_message_is_received(message: Seq<char>, prefix: Seq<u8>, received: Received)
    requires
        message.len() >= 2,
        '\0' <= message[0] <= '\u{7f}',
        encode_utf8(message).len() <= MAX_MESSAGE_LEN,
        prefix.len() == 4,
        big_endian(prefix) == encode_utf8(message).len() as int % 0x1_0000_0000,
        received.says(encode_utf8(message)),
    ensures
        announced_length(prefix) == Some(encode_utf8(message).len() as int),
        match Source::of(seq![message[0]]) {
            Source::Bot => received matches Received::Bot(text) && text@ == message,
            Source::User => received matches Received::User(text) && text@ == message,
            Source::Unknown => received matches Received::UnknownSource(text) && text@ == message,
        },
{
    broadcast use vstd::utf8::encode_utf8_valid_utf8;

    vstd::utf8::encode_utf8_decode_utf8(message);
    lemma_cut_after_ascii(message, 1);
    assert(message.take(1) =~= seq![message[0]]);
    lemma_longer_than_characters(message);
}

/// A text has at least as many bytes as characters.
pub proof fn lemma_longer_than_characters(text: Seq<char>)
    ensures
        encode_utf8(text).len() >= text.len(),
    decreases text.len(),
{
    if text.len() > 0 {
        lemma_longer_than_characters(text.drop_first());
    }
}

/// The first byte of a prefix counts most, and the last least.
pub proof fn law_first_byte_counts_most(first: u8, second: u8, third: u8, fourth: u8)
    ensures
        big_endian(seq![first, second, third, fourth]) == ((first * 256 + second) * 256 + third) * 256
            + fourth,
{
}

/// A length is announced exactly where it is from 1 up to 8192.
pub proof fn law_announced_lengths(prefix: Seq<u8>)
    ensures
        1 <= big_endian(prefix) <= 8192 ==> announced_length(prefix) == Some(big_endian(prefix)),
        !(1 <= big_endian(prefix) <= 8192) ==> announced_length(prefix) is None,
        INITIAL_BUF == 4096,
{
}

/// Only a code of one character stands for a sender.
pub proof fn law_other_source_codes(code: Seq<char>)
    requires
        code.len() != 1,
    ensures
        Source::of(code) == Source::Unknown,
{
    reveal_strlit("0");
    reveal_strlit("1");
}

/// A body that is no text is given up. A text of at most one byte is passed over. A longer one comes
/// from a bot where its first character is `0`, from a user where it is `1`, from nobody known where
/// it is another character of one byte, and has no sender where its first character takes more; in
/// the first three cases the message is the whole text.
pub proof fn law_bodies_by_their_first_character(
    body: Seq<u8>,
    message: Seq<char>,
    received: Received,
)
    requires
        received.says(body),
    ensures
        !valid_utf8(body) ==> received is NotText,
        valid_utf8(body) ==> !(received is NotText),
        valid_utf8(body) && body.len() <= 1 ==> received is Ignored,
        body == encode_utf8(message) && body.len() > 1 ==> if message[0] == '0' {
            received matches Received::Bot(text) && text@ == message
        } else if message[0] == '1' {
            received matches Received::User(text) && text@ == message
        } else if message[0] <= '\u{7f}' {
            received matches Received::UnknownSource(text) && text@ == message
        } else {
            received is Malformed
        },
{
    broadcast use vstd::utf8::encode_utf8_valid_utf8;

    if body == encode_utf8(message) && body.len() > 1 {
        vstd::utf8::encode_utf8_decode_utf8(message);
        assert(message.len() > 0) by {
            if message.len() == 0 {
                assert(encode_utf8(message).len() == 0);
            }
        }
        if message[0] <= '\u{7f}' {
            lemma_cut_after_ascii(message, 1);
            assert(message.take(1) =~= seq![message[0]]);
            law_source_codes(message[0]);
        } else {
            lemma_wide_character_is_not_cut(message);
        }
    }
}

/// A character above 127 takes more than one byte.
proof fn lemma_wide_character(c: char)
    requires
        c > '\u{7f}',
    ensures
        vstd::utf8::encode_scalar(c as u32).len() >= 2,
{
    assert(c as u32 > 0x7f);
}

/// A text whose first character takes more than one byte has no boundary after its first byte.
proof fn lemma_wide_character_is_not_cut(text: Seq<char>)
    requires
        text.len() > 0,
        text[0] > '\u{7f}',
    ensures
        !boundary(text, 1),
{
    broadcast use vstd::utf8::encode_utf8_valid_utf8;

    let bytes = encode_utf8(text);
    vstd::utf8::encode_utf8_first_scalar(text);
    let size = vstd::utf8::length_of_first_scalar(bytes);
    lemma_wide_character(text[0]);
    assert(size >= 2);
    assert(!vstd::utf8::is_char_boundary(vstd::utf8::pop_first_scalar(bytes), 1 - size));
}

} // verus!
