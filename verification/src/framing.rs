//! The byte stream between the two sides: each message is a header that gives the length of the
//! body, an empty line, and the body, a JSON document.

use crate::json::{json, parse_value, parsed_json, Json};
use crate::text::{
    begins_with, begins_with_chars, chars_of, decimal, decimal_of, decode_lossy, digits_value,
    is_digit, is_white_space, law_decimal_is_the_shortest, law_digits_are_read,
    law_prefixes_begin, law_white_space_is_trimmed, lemma_decimal_denotes, lemma_decimal_parses,
    lenient_text, parse_usize, parsed_usize, trim_chars, trimmed,
};
use serde_json::Value;
use vstd::prelude::*;
use vstd::utf8::*;

verus! {

/// The header that announces a body of `length` bytes.
pub open spec fn frame_header(length: nat) -> Seq<char> {
    "Content-Length: "@ + decimal(length) + "\r\n\r\n"@
}

/// `body` as it goes over the stream: its header, then the body itself.
pub open spec fn frame(body: Seq<u8>) -> Seq<u8> {
    encode_utf8(frame_header(body.len())) + body
}

/// Puts the header before `body`.
pub fn frame_body(body: &[u8]) -> (framed: Vec<u8>)
    ensures
        framed@ == frame(body@),
{
    let mut header = "Content-Length: ".to_owned();
    header.append(decimal_of(body.len()).as_str());
    header.append("\r\n\r\n");
    let mut framed = header.as_str().as_bytes_vec();
    let mut i: usize = 0;
    while i < body.len()
        invariant
            i <= body@.len(),
            framed@ == encode_utf8(frame_header(body@.len())) + body@.take(i as int),
        decreases body@.len() - i,
    {
        framed.push(body[i]);
        i = i + 1;
    }
    assert(body@.take(i as int) =~= body@);
    framed
}

/// How many characters stand before the first line feed of `text`; all, if it has none.
pub open spec fn line_length(text: Seq<char>) -> int
    decreases text.len(),
{
    if text.len() == 0 || text[0] == '\n' {
        0
    } else {
        1 + line_length(text.drop_first())
    }
}

/// The first line of `text`, without the line feed that ends it and a carriage return right
/// before that.
pub open spec fn first_line(text: Seq<char>) -> Seq<char> {
    let end = line_length(text);
    if 0 < end < text.len() && text[end - 1] == '\r' {
        text.take(end - 1)
    } else {
        text.take(end)
    }
}

/// What follows `Content-Length:` on the first line of `text` that begins so.
pub open spec fn length_field(text: Seq<char>) -> Option<Seq<char>>
    decreases text.len(),
{
    if text.len() == 0 {
        None
    } else if begins_with(first_line(text), "Content-Length:"@) {
        Some(first_line(text).skip("Content-Length:"@.len() as int))
    } else if 0 <= line_length(text) < text.len() {
        length_field(text.skip(line_length(text) + 1))
    } else {
        None
    }
}

/// The body length that a header announces: the number in its length field, and zero where there
/// is no such field or no number in it.
pub open spec fn announced_length(header: Seq<char>) -> usize {
    match length_field(header) {
        Some(field) => match parsed_usize(trimmed(field)) {
            Some(length) => length,
            None => 0,
        },
        None => 0,
    }
}

/// The first line feed stands where the first line ends.
proof fn lemma_line_length(text: Seq<char>)
    ensures
        0 <= line_length(text) <= text.len(),
        line_length(text) < text.len() ==> text[line_length(text)] == '\n',
        forall|i: int| 0 <= i < line_length(text) ==> text[i] != '\n',
    decreases text.len(),
{
    if text.len() > 0 && text[0] != '\n' {
        let tail = text.drop_first();
        lemma_line_length(tail);
        assert forall|i: int| 0 <= i < line_length(text) implies text[i] != '\n' by {
            if i > 0 {
                assert(text[i] == tail[i - 1]);
            }
        }
    }
}

/// The line length is the only place that fits.
proof fn lemma_line_length_is(text: Seq<char>, end: int)
    requires
        0 <= end <= text.len(),
        end < text.len() ==> text[end] == '\n',
        forall|i: int| 0 <= i < end ==> text[i] != '\n',
    ensures
        line_length(text) == end,
{
    lemma_line_length(text);
    let found = line_length(text);
    if found < end {
        assert(text[found] != '\n');
    } else if end < found {
        assert(text[end] != '\n');
    }
}

/// The body length that a header announces.
pub fn content_length(header: &[u8]) -> (length: usize)
    ensures
        length == announced_length(lenient_text(header@)),
{
    let text = decode_lossy(header);
    let chars = chars_of(text.as_str());
    let field_name = chars_of("Content-Length:");
    let mut start: usize = 0;
    assert(chars@.skip(0) =~= chars@);
    while start < chars.len()
        invariant
            start <= chars@.len(),
            field_name@ == "Content-Length:"@,
            length_field(chars@) == length_field(chars@.skip(start as int)),
            chars@ == lenient_text(header@),
        decreases chars@.len() - start,
    {
        let mut end: usize = start;
        while end < chars.len() && chars[end] != '\n'
            invariant
                start <= end <= chars@.len(),
                forall|i: int| start <= i < end ==> chars@[i] != '\n',
            decreases chars@.len() - end,
        {
            end = end + 1;
        }
        let ghost rest = chars@.skip(start as int);
        proof {
            assert(end < chars@.len() ==> rest[end - start] == chars@[end as int]);
            lemma_line_length_is(rest, end - start);
        }
        let stop: usize = if start < end && end < chars.len() && chars[end - 1] == '\r' {
            end - 1
        } else {
            end
        };
        let line = vstd::slice::slice_subrange(chars.as_slice(), start, stop);
        assert(line@ =~= first_line(rest));
        if begins_with_chars(line, "Content-Length:") {
            let field = vstd::slice::slice_subrange(line, field_name.len(), line.len());
            assert(field@ =~= first_line(rest).skip("Content-Length:"@.len() as int));
            return match parse_usize(trim_chars(field)) {
                Some(length) => length,
                None => 0,
            };
        }
        if end == chars.len() {
            return 0;
        }
        assert(rest.skip(line_length(rest) + 1) =~= chars@.skip(end + 1));
        start = end + 1;
    }
    0
}

/// `bytes` end with an empty line: two line ends in a row.
pub open spec fn ends_header(bytes: Seq<u8>) -> bool {
    bytes.len() >= 4 && bytes.skip(bytes.len() - 4) == seq![13u8, 10u8, 13u8, 10u8]
}

/// The length of the header at the beginning of `stream`: it ends with the first empty line.
pub open spec fn header_length(stream: Seq<u8>) -> Option<nat>
    decreases stream.len(),
{
    if stream.len() == 0 {
        None
    } else {
        match header_length(stream.drop_last()) {
            Some(length) => Some(length),
            None => if ends_header(stream) {
                Some(stream.len())
            } else {
                None
            },
        }
    }
}

/// The length of the first frame of `stream`, header and body, if all of it is there.
pub open spec fn frame_length(stream: Seq<u8>) -> Option<nat> {
    match header_length(stream) {
        Some(header) => {
            let body = announced_length(lenient_text(stream.take(header as int))) as nat;
            if header + body <= stream.len() {
                Some(header + body)
            } else {
                None
            }
        },
        None => None,
    }
}

/// The message in a body: one, if the body is a JSON document, and otherwise none.
pub open spec fn message_in(body: Seq<u8>) -> Seq<Json> {
    match parsed_json(body) {
        Some(message) => seq![message],
        None => seq![],
    }
}

/// The messages that `stream` holds, in order. A body that is no JSON document is passed over,
/// and so is a frame at the end that is not complete.
pub open spec fn messages(stream: Seq<u8>) -> Seq<Json>
    decreases stream.len(),
{
    match frame_length(stream) {
        Some(length) => {
            proof {
                lemma_frame_length(stream);
            }
            message_in(stream.subrange(header_length(stream)->0 as int, length as int)) + messages(
                stream.skip(length as int),
            )
        },
        None => seq![],
    }
}

/// What is left of `stream` behind its last complete frame.
pub open spec fn unfinished(stream: Seq<u8>) -> Seq<u8>
    decreases stream.len(),
{
    match frame_length(stream) {
        Some(length) => {
            proof {
                lemma_frame_length(stream);
            }
            unfinished(stream.skip(length as int))
        },
        None => stream,
    }
}

/// How many bytes to read next when `stream` has been read: what is missing of the body that a
/// complete header announces, and otherwise one byte.
pub open spec fn wanted_after(stream: Seq<u8>) -> int {
    let rest = unfinished(stream);
    match header_length(rest) {
        Some(header) => header + announced_length(lenient_text(rest.take(header as int)))
            - rest.len(),
        None => 1,
    }
}

/// A header ends with an empty line, and is a header also where nothing follows it.
proof fn lemma_header_length(stream: Seq<u8>)
    ensures
        header_length(stream) matches Some(length) ==> {
            &&& 4 <= length <= stream.len()
            &&& ends_header(stream.take(length as int))
            &&& header_length(stream.take(length as int)) == Some(length)
        },
    decreases stream.len(),
{
    if stream.len() > 0 {
        let shorter = stream.drop_last();
        lemma_header_length(shorter);
        match header_length(shorter) {
            Some(length) => {
                assert(shorter.take(length as int) =~= stream.take(length as int));
            },
            None => {
                assert(stream.take(stream.len() as int) =~= stream);
            },
        }
    }
}

/// A complete frame has a header, and lies within the stream.
pub proof fn lemma_frame_length(stream: Seq<u8>)
    ensures
        frame_length(stream) matches Some(length) ==> {
            &&& header_length(stream) is Some
            &&& 4 <= header_length(stream)->0 <= length <= stream.len()
        },
{
    lemma_header_length(stream);
}

/// More bytes behind a header do not change it.
proof fn lemma_header_length_extend(stream: Seq<u8>, more: Seq<u8>)
    requires
        header_length(stream) is Some,
    ensures
        header_length(stream + more) == header_length(stream),
    decreases more.len(),
{
    if more.len() == 0 {
        assert(stream + more =~= stream);
    } else {
        lemma_header_length_extend(stream, more.drop_last());
        assert((stream + more).drop_last() =~= stream + more.drop_last());
    }
}

/// More bytes behind a complete frame do not change it.
proof fn lemma_frame_length_extend(stream: Seq<u8>, more: Seq<u8>)
    requires
        frame_length(stream) is Some,
    ensures
        header_length(stream + more) == header_length(stream),
        frame_length(stream + more) == frame_length(stream),
{
    lemma_header_length_extend(stream, more);
    lemma_header_length(stream);
    let header = header_length(stream)->0 as int;
    assert((stream + more).take(header) =~= stream.take(header));
}

/// More bytes are read as a continuation of what was unfinished.
proof fn lemma_continue(stream: Seq<u8>, more: Seq<u8>)
    ensures
        messages(stream + more) == messages(stream) + messages(unfinished(stream) + more),
        unfinished(stream + more) == unfinished(unfinished(stream) + more),
        frame_length(unfinished(stream)) is None,
    decreases stream.len(),
{
    match frame_length(stream) {
        Some(length) => {
            lemma_frame_length(stream);
            lemma_frame_length_extend(stream, more);
            let header = header_length(stream)->0 as int;
            let end = length as int;
            assert((stream + more).subrange(header, end) =~= stream.subrange(header, end));
            assert((stream + more).skip(end) =~= stream.skip(end) + more);
            lemma_continue(stream.skip(end), more);
            assert(messages(stream + more) =~= messages(stream) + messages(
                unfinished(stream) + more,
            ));
        },
        None => {
            assert(messages(stream) + messages(stream + more) =~= messages(stream + more));
        },
    }
}

/// Cuts a byte stream into messages. It is fed the stream in pieces of any size, and hands out each
/// message as soon as the last byte of its body is there.
pub struct MessageReader {
    header: Vec<u8>,
    body: Vec<u8>,
    body_length: Option<usize>,
    read: Ghost<Seq<u8>>,
}

impl MessageReader {
    /// All bytes that have been fed to the reader.
    pub closed spec fn stream(self) -> Seq<u8> {
        self.read@
    }

    /// The reader holds the unfinished rest of the stream, and knows whether its header is
    /// complete.
    pub closed spec fn well_formed(self) -> bool {
        &&& self.header@ + self.body@ == unfinished(self.read@)
        &&& match self.body_length {
            Some(length) => {
                &&& header_length(self.header@) == Some(self.header@.len())
                &&& length == announced_length(lenient_text(self.header@))
                &&& self.body@.len() < length
            },
            None => header_length(self.header@) is None && self.body@.len() == 0,
        }
    }

    /// A reader at the beginning of a stream.
    pub fn new() -> (reader: Self)
        ensures
            reader.well_formed(),
            reader.stream() == Seq::<u8>::empty(),
    {
        let reader = MessageReader {
            header: Vec::new(),
            body: Vec::new(),
            body_length: None,
            read: Ghost(Seq::empty()),
        };
        assert(reader.header@ + reader.body@ =~= unfinished(Seq::<u8>::empty()));
        reader
    }

    /// How many bytes the reader needs before it can tell more.
    pub fn wanted(&self) -> (count: usize)
        requires
            self.well_formed(),
        ensures
            count == wanted_after(self.stream()),
            count > 0,
    {
        let ghost rest = self.header@ + self.body@;
        match self.body_length {
            Some(length) => {
                proof {
                    lemma_header_length_extend(self.header@, self.body@);
                    assert(rest.take(self.header@.len() as int) =~= self.header@);
                }
                length - self.body.len()
            },
            None => {
                assert(rest =~= self.header@);
                1
            },
        }
    }

    /// Takes the next bytes of the stream, and hands out the messages that they complete.
    pub fn feed(&mut self, bytes: &[u8]) -> (found: Vec<Value>)
        requires
            old(self).well_formed(),
        ensures
            final(self).well_formed(),
            final(self).stream() == old(self).stream() + bytes@,
            messages(final(self).stream()) == messages(old(self).stream()) + found@.map_values(
                |message: Value| json(message),
            ),
    {
        let mut found: Vec<Value> = Vec::new();
        let ghost before = self.read@;
        let ghost contents = |message: Value| json(message);
        assert(before + bytes@.take(0) =~= before);
        assert(messages(before) + found@.map_values(contents) =~= messages(before));
        let mut i: usize = 0;
        while i < bytes.len()
            invariant
                i <= bytes@.len(),
                self.well_formed(),
                self.stream() == before + bytes@.take(i as int),
                contents == (|message: Value| json(message)),
                messages(self.stream()) == messages(before) + found@.map_values(contents),
            decreases bytes@.len() - i,
        {
            let ghost earlier = found@;
            if let Some(message) = self.feed_byte(bytes[i]) {
                found.push(message);
                assert(found@.map_values(contents) =~= earlier.map_values(contents).push(
                    json(message),
                ));
            }
            assert(before + bytes@.take(i + 1) =~= (before + bytes@.take(i as int)).push(
                bytes@[i as int],
            ));
            i = i + 1;
        }
        assert(bytes@.take(i as int) =~= bytes@);
        found
    }

    /// Takes one byte of the stream, and hands out the message that it completes.
    fn feed_byte(&mut self, byte: u8) -> (message: Option<Value>)
        requires
            old(self).well_formed(),
        ensures
            final(self).well_formed(),
            final(self).stream() == old(self).stream().push(byte),
            messages(final(self).stream()) == match message {
                Some(value) => messages(old(self).stream()).push(json(value)),
                None => messages(old(self).stream()),
            },
    {
        let ghost rest = self.header@ + self.body@;
        let ghost before = self.read@;
        proof {
            lemma_continue(before, seq![byte]);
            assert(before + seq![byte] =~= before.push(byte));
        }
        self.read = Ghost(before.push(byte));
        match self.body_length {
            Some(length) => {
                self.body.push(byte);
                assert(rest + seq![byte] =~= self.header@ + self.body@);
                if self.body.len() < length {
                    proof {
                        lemma_part_of_a_frame(self.header@, self.body@);
                    }
                    return None;
                }
            },
            None => {
                self.header.push(byte);
                assert(rest + seq![byte] =~= self.header@);
                assert(self.header@.drop_last() =~= rest);
                if !is_header_end(self.header.as_slice()) {
                    assert(self.header@ + self.body@ =~= self.header@);
                    return None;
                }
                let length: usize = content_length(self.header.as_slice());
                assert(self.header@ + self.body@ =~= self.header@);
                if self.body.len() < length {
                    self.body_length = Some(length);
                    proof {
                        lemma_part_of_a_frame(self.header@, self.body@);
                    }
                    return None;
                }
            },
        }
        proof {
            lemma_one_frame(self.header@, self.body@);
        }
        let message = parse_value(self.body.as_slice());
        self.header = Vec::new();
        self.body = Vec::new();
        self.body_length = None;
        assert(self.header@ + self.body@ =~= Seq::<u8>::empty());
        message
    }
}

/// A header and less than the body that it announces are no frame yet.
proof fn lemma_part_of_a_frame(header: Seq<u8>, body: Seq<u8>)
    requires
        header_length(header) == Some(header.len()),
        body.len() < announced_length(lenient_text(header)),
    ensures
        frame_length(header + body) is None,
        messages(header + body) == Seq::<Json>::empty(),
        unfinished(header + body) == header + body,
{
    lemma_header_length_extend(header, body);
    assert((header + body).take(header.len() as int) =~= header);
}

/// A header and the body that it announces are one frame and nothing more.
proof fn lemma_one_frame(header: Seq<u8>, body: Seq<u8>)
    requires
        header_length(header) == Some(header.len()),
        body.len() == announced_length(lenient_text(header)),
    ensures
        frame_length(header + body) == Some(header.len() + body.len()),
        messages(header + body) == message_in(body),
        unfinished(header + body) == Seq::<u8>::empty(),
{
    lemma_header_length_extend(header, body);
    let stream = header + body;
    assert(stream.take(header.len() as int) =~= header);
    assert(stream.subrange(header.len() as int, stream.len() as int) =~= body);
    assert(stream.skip(stream.len() as int) =~= Seq::<u8>::empty());
    assert(header_length(Seq::<u8>::empty()) is None);
    assert(messages(Seq::<u8>::empty()) =~= seq![]);
    assert(unfinished(Seq::<u8>::empty()) =~= seq![]);
    assert(message_in(body) + seq![] =~= message_in(body));
}

/// Whether `bytes` end with an empty line.
fn is_header_end(bytes: &[u8]) -> (answer: bool)
    ensures
        answer == ends_header(bytes@),
{
    let n: usize = bytes.len();
    if n < 4 {
        return false;
    }
    let ghost tail = bytes@.skip(bytes@.len() - 4);
    let answer = bytes[n - 4] == 13 && bytes[n - 3] == 10 && bytes[n - 2] == 13 && bytes[n - 1]
        == 10;
    proof {
        let line_ends = seq![13u8, 10u8, 13u8, 10u8];
        if answer {
            assert(tail =~= line_ends);
        } else {
            assert(tail[0] == bytes@[n - 4]);
            assert(tail[1] == bytes@[n - 3]);
            assert(tail[2] == bytes@[n - 2]);
            assert(tail[3] == bytes@[n - 1]);
            assert(line_ends[0] == 13 && line_ends[1] == 10 && line_ends[2] == 13 && line_ends[3]
                == 10);
        }
    }
    answer
}

/// The header that `frame` writes is a header, and announces the length that it was given.
proof fn lemma_frame_header(length: usize)
    ensures
        ({
            let header = encode_utf8(frame_header(length as nat));
            &&& header_length(header) == Some(header.len())
            &&& announced_length(lenient_text(header)) == length
        }),
{
    let name = "Content-Length: "@;
    let number = decimal(length as nat);
    let line_ends = "\r\n\r\n"@;
    let text = frame_header(length as nat);
    let header = encode_utf8(text);
    reveal_strlit("Content-Length: ");
    reveal_strlit("Content-Length:");
    reveal_strlit("\r\n\r\n");
    lemma_decimal_denotes(length as nat);
    assert forall|i: int| 0 <= i < number.len() implies number[i] == #[trigger] text[16 + i]
        && is_digit(text[16 + i]) by {
        assert(is_digit(number[i]));
    }
    let last = text.len() - 4;
    assert(forall|i: int| 0 <= i < last && i >= 16 ==> #[trigger] text[i] == number[i - 16]);
    assert(forall|i: int| 0 <= i < last && i >= 16 ==> is_digit(#[trigger] text[i])) by {
        assert forall|i: int| 0 <= i < last && i >= 16 implies is_digit(#[trigger] text[i]) by {
            assert(is_digit(number[i - 16]));
        }
    }
    assert(text[last] == '\r' && text[last + 1] == '\n' && text[last + 2] == '\r' && text[last + 3]
        == '\n');
    assert(is_ascii_chars(text));
    is_ascii_chars_encode_utf8(text);
    // No line end stands before the last four bytes, so the header is not over before its end.
    assert forall|i: int| 0 <= i < last implies header[i] != 13 && header[i] != 10 by {
        assert(text[i] as u8 == header[i]);
    }
    lemma_no_early_end(header, header.len() as int - 1);
    let tail = header.skip(last);
    assert(text[last] as u8 == header[last]);
    assert(text[last + 1] as u8 == header[last + 1]);
    assert(text[last + 2] as u8 == header[last + 2]);
    assert(text[last + 3] as u8 == header[last + 3]);
    assert(tail =~= seq![13u8, 10u8, 13u8, 10u8]);
    assert(header.take(header.len() as int - 1) =~= header.drop_last());
    // The text of the header is read back as it was written.
    encode_utf8_valid_utf8(text);
    encode_utf8_decode_utf8(text);
    lemma_line_length_is(text, last + 1);
    let line = first_line(text);
    assert(line =~= name + number);
    assert(line.take(15) =~= "Content-Length:"@);
    let field = line.skip(15);
    assert(field =~= seq![' '] + number);
    assert(field.drop_first() =~= number);
    assert(is_digit(number[0]) && is_digit(number.last()));
    assert(trimmed(field) == trimmed(number));
    assert(trimmed(number) == number);
    lemma_decimal_parses(length);
}

/// Where only the last four bytes of a header can hold line ends, none of its shorter prefixes is
/// a header.
proof fn lemma_no_early_end(header: Seq<u8>, end: int)
    requires
        0 <= end < header.len(),
        forall|i: int| 0 <= i < header.len() - 4 ==> header[i] != 13,
    ensures
        header_length(header.take(end)) is None,
    decreases end,
{
    let prefix = header.take(end);
    if end > 0 {
        lemma_no_early_end(header, end - 1);
        assert(prefix.drop_last() =~= header.take(end - 1));
        if end >= 4 {
            assert(prefix.skip(end - 4)[0] == header[end - 4]);
            assert(seq![13u8, 10u8, 13u8, 10u8][0] == 13);
        }
    }
}

/// One framed body is read back as that body and nothing more.
pub proof fn lemma_frame_is_read_back(body: Seq<u8>)
    requires
        body.len() <= usize::MAX,
    ensures
        messages(frame(body)) == message_in(body),
        unfinished(frame(body)) == Seq::<u8>::empty(),
{
    lemma_frame_header(body.len() as usize);
    lemma_one_frame(encode_utf8(frame_header(body.len())), body);
}

/// What goes over the stream when `bodies` are sent one after the other.
pub open spec fn frames(bodies: Seq<Seq<u8>>) -> Seq<u8>
    decreases bodies.len(),
{
    if bodies.len() == 0 {
        seq![]
    } else {
        frames(bodies.drop_last()) + frame(bodies.last())
    }
}

/// The JSON documents among `bodies`, in order.
pub open spec fn documents(bodies: Seq<Seq<u8>>) -> Seq<Json>
    decreases bodies.len(),
{
    if bodies.len() == 0 {
        seq![]
    } else {
        documents(bodies.drop_last()) + message_in(bodies.last())
    }
}

/// What one side frames, the other side reads: the messages on a stream of framed bodies are the
/// JSON documents among the bodies, in the order in which they were sent, and nothing is left
/// over.
pub proof fn law_frames_are_read_back(bodies: Seq<Seq<u8>>)
    requires
        forall|i: int| 0 <= i < bodies.len() ==> (#[trigger] bodies[i]).len() <= usize::MAX,
    ensures
        messages(frames(bodies)) == documents(bodies),
        unfinished(frames(bodies)) == Seq::<u8>::empty(),
    decreases bodies.len(),
{
    if bodies.len() == 0 {
        assert(header_length(frames(bodies)) is None);
    } else {
        let earlier = bodies.drop_last();
        let body = bodies.last();
        law_frames_are_read_back(earlier);
        lemma_continue(frames(earlier), frame(body));
        lemma_frame_is_read_back(body);
        assert(Seq::<u8>::empty() + frame(body) =~= frame(body));
    }
}

/// A message that was read stays read: more bytes only add messages behind it.
pub proof fn law_messages_are_final(stream: Seq<u8>, more: Seq<u8>)
    ensures
        messages(stream).is_prefix_of(messages(stream + more)),
{
    lemma_continue(stream, more);
}

/// A frame is the length of the body in base ten, between the words around it, and the body.
pub proof fn law_frame_gives_the_length(body: Seq<u8>, digits: Seq<char>)
    requires
        digits.len() > 0,
        forall|i: int| 0 <= i < digits.len() ==> '0' <= #[trigger] digits[i] <= '9',
        digits[0] == '0' ==> digits.len() == 1,
        digits_value(digits) == body.len(),
    ensures
        frame(body) == encode_utf8("Content-Length: "@ + digits + "\r\n\r\n"@) + body,
{
    law_decimal_is_the_shortest(digits);
}

/// Whatever document a framed body writes, in whichever way, is the message that is read, before
/// those of what follows. A body that writes none gives no message.
pub proof fn law_every_document_is_a_message(body: Seq<u8>, rest: Seq<u8>)
    requires
        body.len() <= usize::MAX,
    ensures
        parsed_json(body) matches Some(document) ==> {
            &&& messages(frame(body)) == seq![document]
            &&& messages(frame(body) + rest) == seq![document] + messages(rest)
        },
        parsed_json(body) is None ==> {
            &&& messages(frame(body)) == Seq::<Json>::empty()
            &&& messages(frame(body) + rest) == messages(rest)
        },
{
    lemma_frame_is_read_back(body);
    lemma_continue(frame(body), rest);
    assert(Seq::<u8>::empty() + rest =~= rest);
    assert(Seq::<Json>::empty() + messages(rest) =~= messages(rest));
}

/// The header on a stream ends with the first empty line, and there is none without one.
pub proof fn law_header_ends_with_the_first_empty_line(stream: Seq<u8>, end: int)
    requires
        0 <= end <= stream.len(),
        forall|k: int|
            0 <= k < end - 4 ==> !(#[trigger] stream[k] == 13 && stream[k + 1] == 10 && stream[k
                + 2] == 13 && stream[k + 3] == 10),
    ensures
        end >= 4 && stream[end - 4] == 13 && stream[end - 3] == 10 && stream[end - 2] == 13
            && stream[end - 1] == 10 ==> header_length(stream) == Some(end as nat),
        end == stream.len() && !(end >= 4 && stream[end - 4] == 13 && stream[end - 3] == 10
            && stream[end - 2] == 13 && stream[end - 1] == 10) ==> header_length(stream) is None,
{
    if end > 0 {
        let header = stream.take(end);
        lemma_no_end_before(stream, end - 1);
        assert(header.drop_last() =~= stream.take(end - 1));
        lemma_ends_header(stream, end);
        if ends_header(header) {
            lemma_header_length_extend(header, stream.skip(end));
            assert(stream =~= header + stream.skip(end));
        } else if end == stream.len() {
            assert(header =~= stream);
        }
    }
}

/// What it means that a header ends at a place.
proof fn lemma_ends_header(stream: Seq<u8>, end: int)
    requires
        0 <= end <= stream.len(),
    ensures
        ends_header(stream.take(end)) <==> end >= 4 && stream[end - 4] == 13 && stream[end - 3]
            == 10 && stream[end - 2] == 13 && stream[end - 1] == 10,
{
    let header = stream.take(end);
    if end >= 4 {
        let tail = header.skip(end - 4);
        let line_ends = seq![13u8, 10u8, 13u8, 10u8];
        assert(tail[0] == stream[end - 4] && tail[1] == stream[end - 3] && tail[2] == stream[end
            - 2] && tail[3] == stream[end - 1]);
        assert(line_ends[0] == 13 && line_ends[1] == 10 && line_ends[2] == 13 && line_ends[3]
            == 10);
        if tail[0] == 13 && tail[1] == 10 && tail[2] == 13 && tail[3] == 10 {
            assert(tail =~= line_ends);
        }
    }
}

/// Before the first empty line there is no header.
proof fn lemma_no_end_before(stream: Seq<u8>, end: int)
    requires
        0 <= end < stream.len(),
        forall|k: int|
            0 <= k <= end - 4 ==> !(#[trigger] stream[k] == 13 && stream[k + 1] == 10 && stream[k
                + 2] == 13 && stream[k + 3] == 10),
    ensures
        header_length(stream.take(end)) is None,
    decreases end,
{
    if end > 0 {
        lemma_no_end_before(stream, end - 1);
        assert(stream.take(end).drop_last() =~= stream.take(end - 1));
        lemma_ends_header(stream, end);
        if end >= 4 {
            assert(!(stream[end - 4] == 13 && stream[end - 4 + 1] == 10 && stream[end - 4 + 2]
                == 13 && stream[end - 4 + 3] == 10));
        }
    }
}

/// `header` ends with an empty line, and has none before.
pub open spec fn is_whole_header(header: Seq<u8>) -> bool {
    let n = header.len() as int;
    &&& n >= 4
    &&& header[n - 4] == 13 && header[n - 3] == 10 && header[n - 2] == 13 && header[n - 1] == 10
    &&& forall|k: int|
        0 <= k < n - 4 ==> !(#[trigger] header[k] == 13 && header[k + 1] == 10 && header[k + 2]
            == 13 && header[k + 3] == 10)
}

/// Behind a header, as many bytes as it announces are the body, and the stream goes on behind them.
pub proof fn law_body_has_the_announced_length(header: Seq<u8>, body: Seq<u8>, rest: Seq<u8>)
    requires
        is_whole_header(header),
        body.len() == announced_length(lenient_text(header)),
    ensures
        parsed_json(body) matches Some(document) ==> messages(header + body + rest) == seq![
            document,
        ] + messages(rest),
        parsed_json(body) is None ==> messages(header + body + rest) == messages(rest),
        unfinished(header + body + rest) == unfinished(rest),
        wanted_after(header + body + rest) == wanted_after(rest),
{
    law_header_ends_with_the_first_empty_line(header, header.len() as int);
    lemma_one_frame(header, body);
    lemma_continue(header + body, rest);
    assert(Seq::<u8>::empty() + rest =~= rest);
    assert(Seq::<Json>::empty() + messages(rest) =~= messages(rest));
}

/// Until its body is complete a frame gives no message, and what is wanted is the rest of the body.
pub proof fn law_rest_of_the_body_is_wanted(header: Seq<u8>, part: Seq<u8>)
    requires
        is_whole_header(header),
        part.len() < announced_length(lenient_text(header)),
    ensures
        messages(header + part) == Seq::<Json>::empty(),
        unfinished(header + part) == header + part,
        wanted_after(header + part) == announced_length(lenient_text(header)) - part.len(),
{
    law_header_ends_with_the_first_empty_line(header, header.len() as int);
    lemma_part_of_a_frame(header, part);
    lemma_header_length_extend(header, part);
    assert((header + part).take(header.len() as int) =~= header);
}

/// Until its header is complete a frame gives no message, and one byte is wanted.
pub proof fn law_header_is_wanted_byte_by_byte(part: Seq<u8>)
    requires
        forall|k: int|
            0 <= k <= part.len() - 4 ==> !(#[trigger] part[k] == 13 && part[k + 1] == 10 && part[k
                + 2] == 13 && part[k + 3] == 10),
    ensures
        messages(part) == Seq::<Json>::empty(),
        unfinished(part) == part,
        wanted_after(part) == 1,
{
    let n = part.len() as int;
    if n >= 4 {
        assert(!(part[n - 4] == 13 && part[n - 4 + 1] == 10 && part[n - 4 + 2] == 13 && part[n - 4
            + 3] == 10));
    }
    law_header_ends_with_the_first_empty_line(part, n);
}

/// A line that does not begin with the name of the length field says nothing of the length.
pub proof fn law_other_lines_announce_nothing(line: Seq<char>, rest: Seq<char>)
    requires
        !line.contains('\n'),
        forall|field: Seq<char>| line != #[trigger] ("Content-Length:"@ + field),
    ensures
        announced_length(line.push('\n') + rest) == announced_length(rest),
        announced_length(line) == 0,
{
    let name = "Content-Length:"@;
    reveal_strlit("Content-Length:");
    let text = line.push('\n') + rest;
    lemma_without_line_feed(line);
    assert(text[line.len() as int] == '\n');
    assert forall|i: int| 0 <= i < line.len() implies text[i] != '\n' by {
        assert(text[i] == line[i]);
    }
    lemma_line_length_is(text, line.len() as int);
    assert(text.skip(line.len() as int + 1) =~= rest);
    assert(text.take(line.len() as int) =~= line);
    lemma_name_on_line(line, name);
    lemma_name_on_line(first_line(text), name);
    if begins_with(first_line(text), name) {
        assert(line.take(name.len() as int) =~= first_line(text).take(name.len() as int));
    }
    lemma_line_length_is(line, line.len() as int);
    assert(line.take(line.len() as int) =~= line);
}

/// A line that begins with a name is that name and a field.
proof fn lemma_name_on_line(line: Seq<char>, name: Seq<char>)
    ensures
        begins_with(line, name) ==> exists|field: Seq<char>| line == #[trigger] (name + field),
{
    law_prefixes_begin(line, name);
}

/// A line without line feeds has none at any place.
proof fn lemma_without_line_feed(line: Seq<char>)
    requires
        !line.contains('\n'),
    ensures
        forall|i: int| 0 <= i < line.len() ==> #[trigger] line[i] != '\n',
{
    assert forall|i: int| 0 <= i < line.len() implies #[trigger] line[i] != '\n' by {
        assert(line.contains(line[i]));
    }
}

/// The first line that begins with the name of the length field announces the number behind the
/// name, whatever follows: white space around it does not count, and a plus sign may stand before
/// it. Where no number that a `usize` holds stands there, the length is zero.
pub proof fn law_length_line_announces(field: Seq<char>, rest: Seq<char>)
    requires
        !field.contains('\n'),
    ensures
        ({
            let length = match parsed_usize(trimmed(field)) {
                Some(number) => number,
                None => 0,
            };
            &&& announced_length("Content-Length:"@ + field) == length
            &&& announced_length(("Content-Length:"@ + field).push('\n') + rest) == length
        }),
{
    let name = "Content-Length:"@;
    reveal_strlit("Content-Length:");
    let line = name + field;
    let text = line.push('\n') + rest;
    let n = line.len() as int;
    lemma_without_line_feed(field);
    assert forall|i: int| 0 <= i < n implies #[trigger] line[i] != '\n' by {
        if i >= name.len() {
            assert(line[i] == field[i - name.len()]);
        }
    }
    assert(text[n] == '\n');
    assert forall|i: int| 0 <= i < n implies text[i] != '\n' by {
        assert(text[i] == line[i]);
    }
    lemma_line_length_is(text, n);
    lemma_line_length_is(line, n);
    assert(line.take(n) =~= line);
    assert(line.take(name.len() as int) =~= name);
    assert(line.skip(name.len() as int) =~= field);
    let first = first_line(text);
    assert(first.take(name.len() as int) =~= name);
    if text[n - 1] == '\r' {
        assert(field.last() == '\r');
        let shorter = field.drop_last();
        assert(first.skip(name.len() as int) =~= shorter);
        assert(field =~= shorter.push('\r'));
        lemma_trimmed_push(shorter, '\r');
    } else {
        assert(first =~= line);
    }
}

/// White space at the end does not count.
proof fn lemma_trimmed_push(text: Seq<char>, space: char)
    requires
        is_white_space(space),
    ensures
        trimmed(text.push(space)) == trimmed(text),
    decreases text.len(),
{
    let longer = text.push(space);
    if text.len() == 0 {
        assert(longer.drop_first() =~= text);
    } else if is_white_space(text[0]) {
        lemma_trimmed_push(text.drop_first(), space);
        assert(longer.drop_first() =~= text.drop_first().push(space));
    } else {
        assert(longer.drop_last() =~= text);
    }
}

/// In particular, a line with digits announces the number that they denote.
pub proof fn law_digits_announce_their_number(
    before: Seq<char>,
    digits: Seq<char>,
    after: Seq<char>,
    rest: Seq<char>,
)
    requires
        !before.contains('\n'),
        !after.contains('\n'),
        forall|i: int| 0 <= i < before.len() ==> is_white_space(#[trigger] before[i]),
        forall|i: int| 0 <= i < after.len() ==> is_white_space(#[trigger] after[i]),
        digits.len() > 0,
        forall|i: int| 0 <= i < digits.len() ==> '0' <= #[trigger] digits[i] <= '9',
        digits_value(digits) <= usize::MAX,
    ensures
        announced_length(
            ("Content-Length:"@ + (before + digits + after)).push('\n') + rest,
        ) == digits_value(digits),
{
    let field = before + digits + after;
    lemma_without_line_feed(before);
    lemma_without_line_feed(after);
    assert(!field.contains('\n')) by {
        assert forall|i: int| 0 <= i < field.len() implies #[trigger] field[i] != '\n' by {
            if i < before.len() {
                assert(field[i] == before[i]);
            } else if i < before.len() + digits.len() {
                assert(field[i] == digits[i - before.len()]);
            } else {
                assert(field[i] == after[i - before.len() - digits.len()]);
            }
        }
    }
    assert('0' <= digits[0] <= '9' && '0' <= digits[digits.len() - 1] <= '9');
    law_white_space_is_trimmed(before, digits, after);
    law_digits_are_read(digits);
    law_length_line_announces(field, rest);
}

}
