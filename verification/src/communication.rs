//! Frames on the socket between the agent and its host.

use crate::bytes::{le_bytes, le_bytes_read_back, le_value, lemma_byte_ranges, push_le, read_le};
use crate::text::{lossy_text, utf8_lossy};
use vstd::prelude::*;
use vstd::string::*;
use vstd::utf8::{decode_utf8, encode_utf8, encode_utf8_decode_utf8, encode_utf8_valid_utf8, valid_utf8};

verus! {

pub const FRAME_KIND_CMD: u8 = 1;

pub const FRAME_KIND_QBDI_HELPER: u8 = 2;

/// A message from the host to the script. Its body is laid out as that of a `SEND`.
pub const FRAME_KIND_POST: u8 = 3;

pub const FRAME_KIND_HELLO: u8 = 0x80;

pub const FRAME_KIND_LOG: u8 = 0x81;

pub const FRAME_KIND_COMPLETE: u8 = 0x82;

pub const FRAME_KIND_EVAL_OK: u8 = 0x83;

pub const FRAME_KIND_EVAL_ERR: u8 = 0x84;

pub const FRAME_KIND_RPC_OK: u8 = 0x85;

pub const FRAME_KIND_RPC_ERR: u8 = 0x86;

pub const FRAME_KIND_BYE: u8 = 0x87;

/// A message from the script: the length of its text in four bytes, the text, and
/// binary data.
pub const FRAME_KIND_SEND: u8 = 0x88;

/// A frame: its kind, the length of its payload in four bytes, and the payload.
pub open spec fn frame_bytes(kind: u8, payload: Seq<u8>) -> Seq<u8> {
    seq![kind] + le_bytes(payload.len(), 4) + payload
}

/// A frame.
pub fn write_frame(kind: u8, payload: &[u8]) -> (frame: Vec<u8>)
    ensures
        frame@ == frame_bytes(kind, payload@),
{
    let mut frame: Vec<u8> = Vec::new();
    frame.push(kind);
    push_le(&mut frame, payload.len() as u64, 4);
    frame.extend_from_slice(payload);
    assert(frame@ =~= frame_bytes(kind, payload@));
    frame
}

/// A frame can be told from what follows it: its header gives its kind and its length.
pub proof fn frames_delimit_themselves(kind: u8, payload: Seq<u8>, rest: Seq<u8>)
    requires
        payload.len() <= u32::MAX,
    ensures
        ({
            let stream = frame_bytes(kind, payload) + rest;
            let length = le_value(stream.subrange(1, 5));
            &&& stream[0] == kind
            &&& length == payload.len()
            &&& stream.subrange(5, (5 + length) as int) == payload
            &&& stream.skip((5 + length) as int) == rest
        }),
{
    let stream = frame_bytes(kind, payload) + rest;
    lemma_byte_ranges();
    le_bytes_read_back(payload.len(), 4);
    assert(stream.subrange(1, 5) =~= le_bytes(payload.len(), 4));
    assert(stream.subrange(5, (5 + payload.len()) as int) =~= payload);
    assert(stream.skip((5 + payload.len()) as int) =~= rest);
}

/// Whether a frame holds a command.
pub fn is_cmd_frame(kind: u8) -> (is: bool)
    ensures
        is == (kind == FRAME_KIND_CMD),
{
    kind == FRAME_KIND_CMD
}

/// Whether a frame is for the tracing helper.
pub fn is_qbdi_helper_frame(kind: u8) -> (is: bool)
    ensures
        is == (kind == FRAME_KIND_QBDI_HELPER),
{
    kind == FRAME_KIND_QBDI_HELPER
}

/// The body of a script's message.
pub open spec fn message_body(json: Seq<char>, data: Option<Seq<u8>>) -> Seq<u8> {
    let text = encode_utf8(json);
    le_bytes(text.len(), 4) + text + match data {
        Some(bytes) => bytes,
        None => Seq::empty(),
    }
}

/// The bytes of optional data.
pub open spec fn optional_bytes(data: Option<&[u8]>) -> Option<Seq<u8>> {
    match data {
        Some(bytes) => Some(bytes@),
        None => None,
    }
}

/// The body of a script's message.
pub fn message_payload(json: &str, data: Option<&[u8]>) -> (payload: Vec<u8>)
    ensures
        payload@ == message_body(json@, optional_bytes(data)),
{
    let mut payload: Vec<u8> = Vec::new();
    let text: &[u8] = json.as_bytes();
    push_le(&mut payload, text.len() as u64, 4);
    payload.extend_from_slice(text);
    match data {
        Some(bytes) => {
            payload.extend_from_slice(bytes);
        },
        None => {},
    }
    assert(payload@ =~= message_body(json@, optional_bytes(data)));
    payload
}

/// The frame for a script's message, or an error if there is no connection.
pub fn send_script_message(connected: bool, json: &str, data: Option<&[u8]>) -> (result: Result<
    Vec<u8>,
    String,
>)
    ensures
        result is Ok <==> connected,
        result matches Ok(frame) ==> frame@ == frame_bytes(
            FRAME_KIND_SEND,
            message_body(json@, optional_bytes(data)),
        ),
        result matches Err(message) ==> message@ == "agent socket is not connected"@,
{
    if !connected {
        return Err(String::from_str("agent socket is not connected"));
    }
    let payload: Vec<u8> = message_payload(json, data);
    Ok(write_frame(FRAME_KIND_SEND, payload.as_slice()))
}

/// Where the text of a message body ends, if the body is long enough.
pub open spec fn text_end(payload: Seq<u8>) -> Option<int> {
    if payload.len() < 4 {
        None
    } else {
        let end = 4 + le_value(payload.take(4));
        if end > payload.len() {
            None
        } else {
            Some(end as int)
        }
    }
}

/// A message from the host.
#[derive(Debug)]
pub struct SplitMessage {
    pub json: String,
    pub data: Option<Vec<u8>>,
}

/// Splits a message body into its text and its binary data. No data is the same as empty
/// data.
pub fn split_message_frame(payload: &[u8]) -> (result: Option<SplitMessage>)
    ensures
        result is Some <==> text_end(payload@) is Some,
        result matches Some(message) ==> {
            let end = text_end(payload@)->0;
            let text = payload@.subrange(4, end);
            &&& message.json@ == utf8_lossy(text)
            &&& valid_utf8(text) ==> message.json@ == decode_utf8(text)
            &&& message.data is Some <==> end < payload@.len()
            &&& message.data matches Some(data) ==> data@ == payload@.skip(end)
        },
{
    let length: usize = payload.len();
    if length < 4 {
        return None;
    }
    let json_len: u64 = read_le(payload, 0, 4);
    assert(payload@.subrange(0, 4) =~= payload@.take(4));
    proof {
        lemma_byte_ranges();
        crate::bytes::lemma_le_value_bound(payload@.take(4));
    }
    let json_end: u64 = 4 + json_len;
    if json_end > length as u64 {
        return None;
    }
    let end: usize = json_end as usize;
    let json: String = lossy_text(vstd::slice::slice_subrange(payload, 4, end));
    let data: Option<Vec<u8>> = if end < length {
        let rest: Vec<u8> = vstd::slice::slice_to_vec(
            vstd::slice::slice_subrange(payload, end, length),
        );
        assert(rest@ =~= payload@.skip(end as int));
        Some(rest)
    } else {
        None
    };
    Some(SplitMessage { json, data })
}

/// Splitting the body of a message gives back the text and the data that were sent, if
/// the length of the text fits in its four bytes.
pub proof fn splitting_inverts_sending(json: Seq<char>, data: Option<Seq<u8>>)
    requires
        encode_utf8(json).len() <= u32::MAX,
    ensures
        ({
            let payload = message_body(json, data);
            let end = text_end(payload);
            &&& end == Some((4 + encode_utf8(json).len()) as int)
            &&& valid_utf8(payload.subrange(4, end->0))
            &&& decode_utf8(payload.subrange(4, end->0)) == json
            &&& payload.skip(end->0) == match data {
                Some(bytes) => bytes,
                None => Seq::empty(),
            }
        }),
{
    let text = encode_utf8(json);
    let payload = message_body(json, data);
    lemma_byte_ranges();
    le_bytes_read_back(text.len(), 4);
    assert(payload.take(4) =~= le_bytes(text.len(), 4));
    assert(payload.subrange(4, (4 + text.len()) as int) =~= text);
    encode_utf8_valid_utf8(json);
    encode_utf8_decode_utf8(json);
    assert(payload.skip((4 + text.len()) as int) =~= match data {
        Some(bytes) => bytes,
        None => Seq::empty(),
    });
}

/// Log lines that wait for a connection.
#[derive(Debug)]
pub struct LogCache {
    pub lines: Vec<String>,
}

/// A log line with the prefix of the agent.
pub open spec fn prefixed(message: Seq<char>) -> Seq<char> {
    "[agent] "@ + message
}

impl LogCache {
    pub fn new() -> (cache: LogCache)
        ensures
            cache.lines@.len() == 0,
    {
        LogCache { lines: Vec::new() }
    }

    /// Logs a message: with a connection the frame to write is handed out, without one
    /// the line waits.
    pub fn log_msg(&mut self, connected: bool, message: &str) -> (frame: Option<Vec<u8>>)
        ensures
            connected ==> {
                &&& final(self).lines@ == old(self).lines@
                &&& frame matches Some(f)
                &&& f@ == frame_bytes(FRAME_KIND_LOG, encode_utf8(prefixed(message@)))
            },
            !connected ==> {
                &&& frame is None
                &&& final(self).lines@.len() == old(self).lines@.len() + 1
                &&& final(self).lines@.drop_last() == old(self).lines@
                &&& final(self).lines@.last()@ == prefixed(message@)
            },
    {
        let mut line: String = String::from_str("[agent] ");
        line.append(message);
        if connected {
            Some(write_frame(FRAME_KIND_LOG, line.as_str().as_bytes()))
        } else {
            self.lines.push(line);
            assert(self.lines@.drop_last() =~= old(self).lines@);
            None
        }
    }

    /// Hands out the frames of the lines that have waited, oldest first, once there is a
    /// connection.
    pub fn flush_cached_logs(&mut self, connected: bool) -> (frames: Vec<Vec<u8>>)
        ensures
            !connected ==> frames@.len() == 0 && final(self).lines@ == old(self).lines@,
            connected ==> {
                &&& final(self).lines@.len() == 0
                &&& frames@.len() == old(self).lines@.len()
                &&& forall|i: int|
                    0 <= i < frames@.len() ==> (#[trigger] frames@[i])@ == frame_bytes(
                        FRAME_KIND_LOG,
                        encode_utf8(old(self).lines@[i]@),
                    )
            },
    {
        let mut frames: Vec<Vec<u8>> = Vec::new();
        if !connected {
            return frames;
        }
        let mut lines: Vec<String> = Vec::new();
        core::mem::swap(&mut self.lines, &mut lines);
        let mut i: usize = 0;
        while i < lines.len()
            invariant
                i <= lines@.len(),
                lines@ == old(self).lines@,
                self.lines@.len() == 0,
                frames@.len() == i,
                forall|k: int|
                    0 <= k < i ==> (#[trigger] frames@[k])@ == frame_bytes(
                        FRAME_KIND_LOG,
                        encode_utf8(lines@[k]@),
                    ),
            decreases lines@.len() - i,
        {
            frames.push(write_frame(FRAME_KIND_LOG, lines[i].as_str().as_bytes()));
            i = i + 1;
        }
        frames
    }
}

/// Frames from the host have small numbers and frames from the agent those from 0x80 on;
/// the kinds of either follow one another.
pub proof fn frame_kinds_tell_their_sender()
    ensures
        FRAME_KIND_CMD == 1,
        FRAME_KIND_QBDI_HELPER == FRAME_KIND_CMD + 1,
        FRAME_KIND_POST == FRAME_KIND_QBDI_HELPER + 1,
        FRAME_KIND_HELLO == 0x80,
        FRAME_KIND_LOG == FRAME_KIND_HELLO + 1,
        FRAME_KIND_COMPLETE == FRAME_KIND_LOG + 1,
        FRAME_KIND_EVAL_OK == FRAME_KIND_COMPLETE + 1,
        FRAME_KIND_EVAL_ERR == FRAME_KIND_EVAL_OK + 1,
        FRAME_KIND_RPC_OK == FRAME_KIND_EVAL_ERR + 1,
        FRAME_KIND_RPC_ERR == FRAME_KIND_RPC_OK + 1,
        FRAME_KIND_BYE == FRAME_KIND_RPC_ERR + 1,
        FRAME_KIND_SEND == FRAME_KIND_BYE + 1,
{
}

/// A log line is the message behind the agent's mark.
pub proof fn log_lines_carry_the_mark(message: Seq<char>)
    ensures
        prefixed(message).len() == message.len() + 8,
        prefixed(message).take(8) == "[agent] "@,
        prefixed(message).skip(8) == message,
{
    reveal_strlit("[agent] ");
    assert(prefixed(message).take(8) =~= "[agent] "@);
    assert(prefixed(message).skip(8) =~= message);
}

/// A body is split where its first four bytes, low byte first, say that its text ends; one
/// that is shorter than that, or than four bytes, is not split.
pub proof fn bodies_are_split_by_their_length(payload: Seq<u8>)
    ensures
        payload.len() < 4 ==> text_end(payload) is None,
        payload.len() >= 4 ==> {
            let length = payload[0] + 0x100 * payload[1] + 0x1_0000 * payload[2] + 0x100_0000
                * payload[3];
            &&& text_end(payload) is Some <==> 4 + length <= payload.len()
            &&& text_end(payload) matches Some(end) ==> end == 4 + length
        },
{
    if payload.len() >= 4 {
        crate::bytes::usual_rows_are_read_low_byte_first(payload.take(4));
    }
}

} // verus!
