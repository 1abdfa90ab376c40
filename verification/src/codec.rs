//! Framing: one JSON record on each line.
//!
//! [`Line`] takes the bytes up to the first line feed out of a buffer and
//! reads them as one message, and writes a message as its compact JSON text
//! followed by a line feed. A record that is not JSON does not end the
//! stream: it is handed on as [`Message::SyntaxError`], and the next record is
//! read as if nothing had happened.

use crate::json::{emit, json_parse, json_text, parse, JsonValue, ParseFailure};
use crate::message::{lemma_round_trip, reply_view, Message, MessageValue};
use vstd::prelude::*;

verus! {

/// The byte that ends a record.
pub const LINE_FEED: u8 = 0x0a;

/// `tokio_core::io::EasyBuf`, the buffer that the bytes of a connection
/// arrive in. What it holds is known by name only, as [`buffered`].
#[verifier::external_type_specification]
#[verifier::external_body]
pub struct ExEasyBuf(tokio_core::io::EasyBuf);

/// The bytes that `buffer` holds, from the first to the last.
pub uninterp spec fn buffered(buffer: tokio_core::io::EasyBuf) -> Seq<u8>;

/// `EasyBuf::as_slice`: the bytes that the buffer holds.
#[verifier::external_body]
#[allow(deprecated)]
fn as_slice(buffer: &tokio_core::io::EasyBuf) -> (bytes: &[u8])
    ensures
        bytes@ == buffered(*buffer),
{
    buffer.as_slice()
}

/// `EasyBuf::drain_to`: takes the first `at` bytes out of the buffer and
/// returns them as a buffer of their own; the rest stays. The outside
/// function panics where `at` is more than the buffer holds.
#[verifier::external_body]
#[allow(deprecated)]
fn drain_to(buffer: &mut tokio_core::io::EasyBuf, at: usize) -> (front: tokio_core::io::EasyBuf)
    requires
        at <= buffered(*old(buffer)).len(),
    ensures
        buffered(front) == buffered(*old(buffer)).take(at as int),
        buffered(*final(buffer)) == buffered(*old(buffer)).skip(at as int),
{
    buffer.drain_to(at)
}

/// Why a record could not be decoded, where that is not the record's
/// syntax.
#[derive(Debug, Clone, Copy, PartialEq, Eq)]
pub enum DecodeError {
    /// The record is JSON of a kind that cannot be held.
    Data,
    /// The bytes of the record could not be read.
    Io,
}

/// Why a message could not be encoded.
#[derive(Debug, Clone, Copy, PartialEq, Eq)]
pub enum EncodeError {
    /// The message is the mark of a syntax error, or a batch that holds it.
    NoWireForm,
    /// The JSON writer reported an error.
    Writer,
}

/// Whether the first line feed of `bytes` is at `i`.
pub open spec fn is_line_end(bytes: Seq<u8>, i: int) -> bool {
    &&& 0 <= i < bytes.len()
    &&& bytes[i] == LINE_FEED
    &&& forall|j: int| 0 <= j < i ==> bytes[j] != LINE_FEED
}

/// The place of the first line feed in `bytes`, if there is one.
pub open spec fn line_end(bytes: Seq<u8>) -> Option<int> {
    if exists|i: int| is_line_end(bytes, i) {
        Some(choose|i: int| is_line_end(bytes, i))
    } else {
        None
    }
}

/// What a line is decoded to, given what the JSON reader made of it. Text
/// that is not JSON, or that ends too early, is a message of its own kind,
/// not an error.
pub open spec fn decoded(line: Result<JsonValue, ParseFailure>) -> Result<
    Option<MessageValue>,
    DecodeError,
> {
    match line {
        Ok(json) => Ok(Some(MessageValue::read(json))),
        Err(ParseFailure::Syntax) => Ok(Some(MessageValue::SyntaxError)),
        Err(ParseFailure::Eof) => Ok(Some(MessageValue::SyntaxError)),
        Err(ParseFailure::Data) => Err(DecodeError::Data),
        Err(ParseFailure::Io) => Err(DecodeError::Io),
    }
}

/// One step of decoding: the outcome, and the bytes that stay in the
/// buffer. Without a line feed nothing is taken. With one, the line before
/// it is decoded, and the line and the line feed leave the buffer.
pub open spec fn decode_step(bytes: Seq<u8>) -> (Result<Option<MessageValue>, DecodeError>, Seq<u8>) {
    match line_end(bytes) {
        None => (Ok(None), bytes),
        Some(i) => (decoded(json_parse(bytes.take(i))), bytes.skip(i + 1)),
    }
}

/// The record that a message is sent as: its JSON text and a line feed.
/// `None` for a message without a wire form, and where the JSON writer
/// reports an error.
pub open spec fn record(message: MessageValue) -> Option<Seq<u8>> {
    match message.json() {
        Some(json) => match json_text(json) {
            Some(text) => Some(text.push(LINE_FEED)),
            None => None,
        },
        None => None,
    }
}

/// The value of what [`Line::decode`] returns.
pub open spec fn decode_view(outcome: Result<Option<Message>, DecodeError>) -> Result<
    Option<MessageValue>,
    DecodeError,
> {
    match outcome {
        Ok(message) => Ok(reply_view(message)),
        Err(error) => Err(error),
    }
}

/// The first line feed is at one place only.
pub proof fn lemma_line_end(bytes: Seq<u8>, i: int)
    requires
        is_line_end(bytes, i),
    ensures
        line_end(bytes) == Some(i),
{
    let chosen = choose|k: int| is_line_end(bytes, k);
    assert(is_line_end(bytes, chosen));
    if chosen < i {
        assert(bytes[chosen] != LINE_FEED);
    }
    if i < chosen {
        assert(bytes[i] != LINE_FEED);
    }
}

/// Finds the first line feed.
fn find_line_feed(bytes: &[u8]) -> (found: Option<usize>)
    ensures
        match found {
            Some(i) => line_end(bytes@) == Some(i as int),
            None => line_end(bytes@) is None,
        },
{
    let mut i: usize = 0;
    while i < bytes.len()
        invariant
            i <= bytes@.len(),
            forall|j: int| 0 <= j < i ==> bytes@[j] != LINE_FEED,
        decreases bytes@.len() - i,
    {
        if bytes[i] == LINE_FEED {
            proof {
                lemma_line_end(bytes@, i as int);
            }
            return Some(i);
        }
        i += 1;
    }
    assert(forall|k: int| !is_line_end(bytes@, k));
    None
}

/// The codec that puts one record on each line.
pub struct Line;

impl Line {
    /// Takes the first record out of `buffer` and decodes it.
    ///
    /// While the buffer holds no line feed there is no record yet: the
    /// result is `Ok(None)` and the buffer is left as it is. Else the bytes
    /// before the first line feed are read as JSON, and they and the line
    /// feed leave the buffer, whatever they were.
    pub fn decode(&mut self, buffer: &mut tokio_core::io::EasyBuf) -> (outcome: Result<
        Option<Message>,
        DecodeError,
    >)
        ensures
            (decode_view(outcome), buffered(*final(buffer))) == decode_step(buffered(*old(buffer))),
    {
        match find_line_feed(as_slice(buffer)) {
            None => Ok(None),
            Some(i) => {
                let ghost before = buffered(*buffer);
                let line = drain_to(buffer, i);
                let _feed = drain_to(buffer, 1);
                assert(buffered(*buffer) =~= before.skip(i + 1));
                match parse(as_slice(&line)) {
                    Ok(json) => Ok(Some(Message::from_json(json))),
                    Err(ParseFailure::Syntax) => Ok(Some(Message::SyntaxError)),
                    Err(ParseFailure::Eof) => Ok(Some(Message::SyntaxError)),
                    Err(ParseFailure::Data) => Err(DecodeError::Data),
                    Err(ParseFailure::Io) => Err(DecodeError::Io),
                }
            },
        }
    }

    /// Writes `msg` into `buffer` as one record.
    ///
    /// What the buffer held before is overwritten. The record is the
    /// compact JSON text of the message and one line feed, which is the only
    /// one in it. A message without a wire form is refused, and so is one
    /// that the JSON writer fails on; the buffer is then left as it is.
    pub fn encode(&mut self, msg: Message, buffer: &mut Vec<u8>) -> (outcome: Result<
        (),
        EncodeError,
    >)
        ensures
            match msg@.json() {
                None => {
                    &&& outcome == Err::<(), EncodeError>(EncodeError::NoWireForm)
                    &&& final(buffer)@ == old(buffer)@
                },
                Some(json) => match json_text(json) {
                    None => {
                        &&& outcome == Err::<(), EncodeError>(EncodeError::Writer)
                        &&& final(buffer)@ == old(buffer)@
                    },
                    Some(text) => {
                        &&& outcome is Ok
                        &&& final(buffer)@ == text.push(LINE_FEED)
                        &&& record(msg@) == Some(final(buffer)@)
                        &&& is_line_end(final(buffer)@, text.len() as int)
                    },
                },
            },
    {
        match msg.serialize() {
            Some(json) => match emit(&json) {
                Some(mut text) => {
                    text.push(LINE_FEED);
                    *buffer = text;
                    Ok(())
                },
                None => Err(EncodeError::Writer),
            },
            None => Err(EncodeError::NoWireForm),
        }
    }

    /// Writes `msg` as JSON text, reads the text back and compares.
    ///
    /// The answer is yes exactly where the text is written, holds no line
    /// feed and is read back as the JSON of the message, and that JSON holds
    /// no number but integers. A message that is faithful and passes is
    /// decoded from its record as it was encoded:
    /// [`lemma_record_round_trip`].
    pub fn reads_back(&self, msg: &Message) -> (yes: bool)
        ensures
            yes == (survives(msg@) && msg@.json()->0.integral()),
    {
        match msg.serialize() {
            Some(json) => match emit(&json) {
                Some(text) => match parse(text.as_slice()) {
                    Ok(back) => back.same_as(&json),
                    Err(_) => false,
                },
                None => false,
            },
            None => false,
        }
    }
}

/// Whether the JSON of `message` is written as a text that holds no line
/// feed and that is read back as the same JSON.
pub open spec fn survives(message: MessageValue) -> bool {
    match message.json() {
        Some(json) => match json_text(json) {
            Some(text) => !text.contains(LINE_FEED) && json_parse(text) == Ok::<
                JsonValue,
                ParseFailure,
            >(json),
            None => false,
        },
        None => false,
    }
}

/// The codec that finds the end of a record by the brackets of its JSON
/// value, with no need of a line feed. It is declared so that an endpoint
/// can name it; it has no operation of its own.
pub struct Boundary;

/// A buffer without a line feed holds no record yet: nothing is decoded and
/// nothing leaves the buffer.
pub proof fn lemma_incomplete(bytes: Seq<u8>)
    requires
        !bytes.contains(LINE_FEED),
    ensures
        decode_step(bytes) == (Ok::<Option<MessageValue>, DecodeError>(None), bytes),
{
    assert forall|i: int| !is_line_end(bytes, i) by {
        if 0 <= i < bytes.len() && bytes[i] == LINE_FEED {
            assert(bytes.contains(LINE_FEED));
        }
    }
}

/// The first record of a buffer is decoded by itself: what follows its line
/// feed has no part in the outcome, and is what stays in the buffer.
pub proof fn lemma_first_record(line: Seq<u8>, rest: Seq<u8>)
    requires
        !line.contains(LINE_FEED),
    ensures
        decode_step(line.push(LINE_FEED) + rest) == (decoded(json_parse(line)), rest),
{
    let bytes = line.push(LINE_FEED) + rest;
    let end = line.len() as int;
    assert(bytes[end] == LINE_FEED);
    assert forall|j: int| 0 <= j < end implies bytes[j] != LINE_FEED by {
        assert(bytes[j] == line[j]);
        if line[j] == LINE_FEED {
            assert(line.contains(LINE_FEED));
        }
    }
    lemma_line_end(bytes, end);
    assert(bytes.take(end) =~= line);
    assert(bytes.skip(end + 1) =~= rest);
}

/// Of two records in a buffer the first is decoded and exactly the second
/// stays; decoding again yields the second and leaves the buffer empty.
pub proof fn lemma_two_records(first: Seq<u8>, second: Seq<u8>)
    requires
        !first.contains(LINE_FEED),
        !second.contains(LINE_FEED),
    ensures
        decode_step(first.push(LINE_FEED) + second.push(LINE_FEED)) == (
            decoded(json_parse(first)),
            second.push(LINE_FEED),
        ),
        decode_step(second.push(LINE_FEED)) == (decoded(json_parse(second)), Seq::<u8>::empty()),
{
    lemma_first_record(first, second.push(LINE_FEED));
    lemma_first_record(second, Seq::<u8>::empty());
    assert(second.push(LINE_FEED) + Seq::<u8>::empty() =~= second.push(LINE_FEED));
}

/// A message that is encoded and decoded again is the message that was
/// encoded, and nothing stays in the buffer.
///
/// This is stated of the messages that are read back from their JSON as
/// they were written, and whose JSON survives being written as text and
/// read again: that much is left to the JSON writer and reader, and
/// [`Line::reads_back`] finds it out of a message at hand.
pub proof fn lemma_record_round_trip(message: MessageValue)
    requires
        message.faithful(),
        survives(message),
    ensures
        record(message) is Some,
        decode_step(record(message)->0) == (
            Ok::<Option<MessageValue>, DecodeError>(Some(message)),
            Seq::<u8>::empty(),
        ),
{
    lemma_round_trip(message);
    let text = json_text(message.json()->0)->0;
    lemma_first_record(text, Seq::<u8>::empty());
    assert(text.push(LINE_FEED) + Seq::<u8>::empty() =~= text.push(LINE_FEED));
}

} // verus!
