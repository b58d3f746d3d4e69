//! Sending a request, and reading the response as a text.

use crate::line::ByteRead;
use crate::number::{decimal, law_decimal_is_read_back, parse_u64, parse_usize, unsigned};
use crate::outside::{dns_name_ref, push, try_dns_name};
use crate::response::metadata::{parse_status_line, status_line};
use crate::text::{characters, find, lemma_position, position, same};
use vstd::prelude::*;
use vstd::string::*;
use vstd::utf8::*;

pub mod http_connection;

verus! {

/// What a connection needs to know of a request.
pub struct Request {
    /// The host and the port to connect to, eg. "example.org:80".
    pub host: String,
    /// Whether the method is `HEAD`, to which a response has no body.
    pub is_head: bool,
    /// The timeout of the request in seconds, if it has one of its own.
    pub timeout: Option<u64>,
    /// The request as it is sent.
    pub text: String,
}

/// A connection to the server for sending a `Request`.
pub struct Connection {
    /// The request that is sent.
    pub request: Request,
    /// The timeout in seconds for connecting, reading and writing, if there is one.
    pub timeout: Option<u64>,
}

/// The timeout in seconds that a text gives, if it gives one.
pub open spec fn timeout_in(text: Option<Seq<char>>) -> Option<u64> {
    match text {
        Some(text) => match unsigned(text, 10, u64::MAX as nat) {
            Some(seconds) => Some(seconds as u64),
            None => None,
        },
        None => None,
    }
}

/// The timeout in seconds of a connection, by that of the request and by the text of the
/// environment variable.
pub open spec fn timeout_of(own: Option<u64>, variable: Option<Seq<char>>) -> Option<u64> {
    match own {
        Some(seconds) => Some(seconds),
        None => timeout_in(variable),
    }
}

/// The timeout of the request comes before that of the variable. The variable gives every number
/// of seconds that is written in it. There is no timeout if it is not set or not a number.
pub proof fn law_timeout(seconds: u64, variable: Option<Seq<char>>, text: Seq<char>)
    ensures
        timeout_of(Some(seconds), variable) == Some(seconds),
        timeout_of(None, Some(decimal(seconds as nat))) == Some(seconds),
        timeout_of(None, None) is None,
        match unsigned(text, 10, u64::MAX as nat) {
            Some(n) => timeout_of(None, Some(text)) == Some(n as u64),
            None => timeout_of(None, Some(text)) is None,
        },
{
    law_decimal_is_read_back(seconds as nat, u64::MAX as nat);
}

/// The text of an environment variable, if it is set.
pub open spec fn variable_view(variable: Option<String>) -> Option<Seq<char>> {
    match variable {
        Some(text) => Some(text@),
        None => None,
    }
}

/// The timeout in seconds that an environment variable gives, if it gives one.
pub(crate) fn variable_timeout(variable: Option<String>) -> (timeout: Option<u64>)
    ensures
        timeout == timeout_in(variable_view(variable)),
{
    match variable {
        Some(text) => parse_u64(text.as_str()),
        None => None,
    }
}

/// What sending a request comes to: connect to `host`, with `timeout` for reads and writes, write
/// `bytes`, and hand what is read to `read_from_stream`, from `reader` on.
pub struct Sending {
    /// The host and the port to connect to.
    pub host: String,
    /// The timeout in seconds, if there is one.
    pub timeout: Option<u64>,
    /// What is written to the connection.
    pub bytes: Vec<u8>,
    /// Reads the response.
    pub reader: ResponseReader,
}

impl Connection {
    /// Creates a new `Connection`. The timeout is that of the request, or else the one that
    /// the environment variable `MINREQ_TIMEOUT` gives.
    pub fn new(request: Request, variable: Option<String>) -> (connection: Connection)
        ensures
            connection.request == request,
            connection.timeout == timeout_of(request.timeout, variable_view(variable)),
    {
        let timeout = match request.timeout {
            Some(seconds) => Some(seconds),
            None => variable_timeout(variable),
        };
        Connection { request, timeout }
    }

    /// Consumes this connection, and returns what there is to do to send its request.
    pub fn send(self) -> (sending: Sending)
        ensures
            sending.host == self.request.host,
            sending.timeout == self.timeout,
            sending.bytes@ == encode_utf8(self.request.text@),
            sending.reader@ == unread(self.request.is_head),
            sending.reader.valid(),
    {
        let reader = ResponseReader::new(self.request.is_head);
        let bytes = self.request.text.as_str().as_bytes_vec();
        Sending { host: self.request.host, timeout: self.timeout, bytes, reader }
    }
}

/// The name of a host without its port: what stands before the first colon.
pub open spec fn host_name(host: Seq<char>) -> Seq<char> {
    host.take(position(host, ':'))
}

/// The name of a host with a port is all that stands before the colon. That of a host without one
/// is the host.
pub proof fn law_host_name(name: Seq<char>, port: Seq<char>)
    requires
        !name.contains(':'),
    ensures
        host_name(name + seq![':'] + port) == name,
        host_name(name) == name,
{
    let host = name + seq![':'] + port;
    assert forall|i: int| 0 <= i < name.len() implies host[i] != ':' by {
        assert(host[i] == name[i]);
    }
    lemma_position(host, ':', name.len() as int);
    lemma_position(name, ':', name.len() as int);
    assert(host.take(name.len() as int) == name);
    assert(name.take(name.len() as int) == name);
}

/// The name by which the server of a TLS connection to `host` is known, if it is a DNS name.
pub fn server_name<'a>(host: &'a str) -> (name: Result<
    webpki::DNSNameRef<'a>,
    webpki::InvalidDNSNameError,
>)
    ensures
        name == dns_name_ref(host_name(host@)),
        forall|before: Seq<char>, port: Seq<char>|
            !before.contains(':') && host@ == #[trigger] (before + seq![':'] + port) ==> name
                == dns_name_ref(before),
        !host@.contains(':') ==> name == dns_name_ref(host@),
        name is Ok ==> 0 < host_name(host@).len() <= 253,
{
    let chars = characters(host);
    assert(host@.skip(0) == host@);
    let colon: usize = find(&chars, 0, ':');
    let name = host.substring_char(0, colon);
    assert(name@ == host_name(host@));
    proof {
        assert forall|before: Seq<char>, port: Seq<char>|
            !before.contains(':') && host@ == #[trigger] (before + seq![':'] + port) implies
            host_name(host@) == before by {
            law_host_name(before, port);
        }
        if !host@.contains(':') {
            law_host_name(host@, Seq::empty());
        }
    }
    try_dns_name(name)
}

/// What kind of error a read failed with.
pub enum FailureKind {
    WouldBlock,
    TimedOut,
    Other,
}

/// How a failed read is reported, if it is because it took too long: `timeout` describes the
/// timeout that was set. Any other failure is reported as it is.
pub fn timeout_message(kind: FailureKind, timeout: &str) -> (message: Option<String>)
    ensures
        match message {
            Some(message) => !(kind is Other) && message@ == "Request timed out! Timeout: "@
                + timeout@,
            None => kind is Other,
        },
{
    match kind {
        FailureKind::WouldBlock | FailureKind::TimedOut => Some(
            "Request timed out! Timeout: ".to_owned().concat(timeout),
        ),
        FailureKind::Other => None,
    }
}

/// How far the reading of a response has come.
pub struct ResponseReader {
    /// Whether the response is to a `HEAD` request.
    pub head: bool,
    /// What was read, each byte as the character of that code.
    pub response: String,
    /// The length of the whole response, once it is known.
    pub response_length: Option<usize>,
    /// How many bytes were read.
    pub byte_count: usize,
    /// Whether nothing was read since the last newline, carriage returns aside.
    pub blank_line: bool,
    /// The status code, once the status line was read.
    pub status_code: Option<i32>,
}

/// What a `ResponseReader` holds.
#[verifier::ext_equal]
pub struct Reading {
    pub head: bool,
    pub response: Seq<char>,
    pub response_length: Option<usize>,
    pub byte_count: nat,
    pub blank_line: bool,
    pub status_code: Option<i32>,
}

impl View for ResponseReader {
    type V = Reading;

    open spec fn view(&self) -> Reading {
        Reading {
            head: self.head,
            response: self.response@,
            response_length: self.response_length,
            byte_count: self.byte_count as nat,
            blank_line: self.blank_line,
            status_code: self.status_code,
        }
    }
}

/// Before anything was read of a response.
pub open spec fn unread(head: bool) -> Reading {
    Reading {
        head,
        response: Seq::empty(),
        response_length: None,
        byte_count: 0,
        blank_line: false,
        status_code: None,
    }
}

/// How far the reading of a response has come, with what is to be done next.
pub enum ReadStep {
    /// The next byte is wanted.
    More(ResponseReader),
    /// The whole response, or the error that came instead of a byte.
    Done(Result<String, std::io::Error>),
}

/// What a `ReadStep` says.
pub enum ReadProgress {
    More(Reading),
    Done(Result<Seq<char>, std::io::Error>),
}

impl View for ReadStep {
    type V = ReadProgress;

    open spec fn view(&self) -> ReadProgress {
        match *self {
            ReadStep::More(reader) => ReadProgress::More(reader@),
            ReadStep::Done(Ok(text)) => ReadProgress::Done(Ok(text@)),
            ReadStep::Done(Err(err)) => ReadProgress::Done(Err(err)),
        }
    }
}

/// A line without the carriage return at its end.
pub open spec fn without_carriage_return(line: Seq<char>) -> Seq<char> {
    if line.len() > 0 && line.last() == '\r' {
        line.drop_last()
    } else {
        line
    }
}

/// The lines of a text, without the newline, or carriage return and newline, that ends each.
pub open spec fn lines(text: Seq<char>) -> Seq<Seq<char>>
    decreases text.len(),
    via lines_get_shorter
{
    let newline = position(text, '\n');
    if text.len() == 0 {
        Seq::empty()
    } else if newline == text.len() {
        seq![text]
    } else {
        seq![without_carriage_return(text.take(newline))] + lines(text.skip(newline + 1))
    }
}

#[via_fn]
proof fn lines_get_shorter(text: Seq<char>) {
    crate::text::lemma_position_characters(text, '\n');
}

/// Whether `text` starts with `prefix`.
pub open spec fn starts_with(text: Seq<char>, prefix: Seq<char>) -> bool {
    prefix.len() <= text.len() && text.take(prefix.len() as int) == prefix
}

/// What a line of a head adds to the length of a response: its own length and that of its end,
/// and what it gives as the length of the body. It is not known if the line gives that wrongly.
pub open spec fn line_length(line: Seq<char>) -> Option<nat> {
    let own = encode_utf8(line).len() + 2;
    if starts_with(line, "Content-Length: "@) {
        match unsigned(line.skip("Content-Length: "@.len() as int), 10, usize::MAX as nat) {
            Some(length) => Some(own + length),
            None => None,
        }
    } else {
        Some(own)
    }
}

/// What all lines of a head add to the length of a response.
pub open spec fn lines_length(lines: Seq<Seq<char>>) -> Option<nat>
    decreases lines.len(),
{
    if lines.len() == 0 {
        Some(0)
    } else {
        match (line_length(lines[0]), lines_length(lines.drop_first())) {
            (Some(first), Some(rest)) => Some(first + rest),
            _ => None,
        }
    }
}

/// The length of the response that starts with `head`, with the head as a text in UTF-8, if a
/// `usize` holds it.
pub open spec fn response_length(head: Seq<char>) -> Option<usize> {
    match lines_length(lines(head)) {
        Some(length) => if length <= usize::MAX {
            Some(length as usize)
        } else {
            None
        },
        None => None,
    }
}

/// The length of the response that starts with `head`, as it is in the stream: there each character
/// of the head is one byte, though it may take two in UTF-8.
pub open spec fn stream_length(head: Seq<char>) -> Option<usize> {
    match response_length(head) {
        Some(length) => Some((length - (encode_utf8(head).len() - head.len())) as usize),
        None => None,
    }
}

/// Whether a response has no body, by the request that it is to or by its status code.
pub open spec fn bodiless(head: bool, code: i32) -> bool {
    head || 100 <= code <= 199 || code == 204 || code == 304
}

/// The status code of a response of which `response` is what was read up to a newline.
pub open spec fn status_code(reading: Reading, response: Seq<char>) -> i32 {
    match reading.status_code {
        Some(code) => code,
        None => status_line(response).0,
    }
}

/// Whether `byte` ends the head of a response that has a body, so that its length is needed.
pub open spec fn needs_length(reading: Reading, byte: u8) -> bool {
    let response = reading.response.push(byte as char);
    byte == 0x0a && reading.blank_line && reading.response_length is None && !bodiless(
        reading.head,
        status_code(reading, response),
    )
}

/// Whether `read_from_stream` takes the byte: where the length of the response is needed, its
/// head must give it.
pub open spec fn accepted(reading: Reading, byte: u8) -> bool {
    needs_length(reading, byte) ==> response_length(reading.response.push(byte as char)) is Some
}

/// What was read of a response after one more byte.
pub open spec fn with_byte(reading: Reading, byte: u8) -> Reading {
    let response = reading.response.push(byte as char);
    let read = Reading { response, byte_count: reading.byte_count + 1, ..reading };
    if byte == 0x0a {
        let code = status_code(reading, response);
        Reading {
            response_length: if reading.blank_line && bodiless(reading.head, code) {
                Some((reading.byte_count + 1) as usize)
            } else if needs_length(reading, byte) {
                stream_length(response)
            } else {
                reading.response_length
            },
            blank_line: true,
            status_code: Some(code),
            ..read
        }
    } else if byte == 0x0d {
        read
    } else {
        Reading { blank_line: false, ..read }
    }
}

/// Whether a response is read to its end.
pub open spec fn complete(reading: Reading) -> bool {
    reading.response_length is Some && reading.byte_count >= reading.response_length->0
}

/// How the reading of a response goes on when `read` comes next.
pub open spec fn read_progress(reading: Reading, read: ByteRead) -> ReadProgress {
    match read {
        None => ReadProgress::Done(Ok(reading.response)),
        Some(Err(err)) => ReadProgress::Done(Err(err)),
        Some(Ok(byte)) => {
            let reading = with_byte(reading, byte);
            if complete(reading) {
                ReadProgress::Done(Ok(reading.response))
            } else {
                ReadProgress::More(reading)
            }
        },
    }
}

/// The encoding of a text has at least as many bytes as the text has characters.
pub proof fn lemma_encoded_length(text: Seq<char>)
    ensures
        text.len() <= encode_utf8(text).len(),
    decreases text.len(),
{
    if text.len() > 0 {
        lemma_encoded_length(text.drop_first());
    }
}

/// The encoding of a text is that of its parts.
pub proof fn lemma_encoded_parts(first: Seq<char>, second: Seq<char>)
    ensures
        encode_utf8(first + second) == encode_utf8(first) + encode_utf8(second),
    decreases first.len(),
{
    let both = first + second;
    if first.len() == 0 {
        assert(both == second);
    } else {
        assert(both.drop_first() == first.drop_first() + second);
        lemma_encoded_parts(first.drop_first(), second);
    }
}

proof fn lemma_encoded_newline(line: Seq<char>, rest: Seq<char>)
    ensures
        encode_utf8(line + seq!['\n'] + rest).len() == encode_utf8(line).len() + 1 + encode_utf8(
            rest,
        ).len(),
{
    let newline = seq!['\n'];
    is_ascii_chars_encode_utf8(newline);
    lemma_encoded_parts(line + newline, rest);
    lemma_encoded_parts(line, newline);
}

/// The length that a head gives is at least that of the head.
pub proof fn lemma_length_covers_head(text: Seq<char>)
    ensures
        lines_length(lines(text)) matches Some(length) ==> length >= encode_utf8(text).len(),
    decreases text.len(),
{
    crate::text::lemma_position_characters(text, '\n');
    let newline = position(text, '\n');
    let all = lines(text);
    if text.len() == 0 {
    } else if newline == text.len() {
        assert(all.drop_first() == Seq::<Seq<char>>::empty());
    } else {
        let raw = text.take(newline);
        let line = without_carriage_return(raw);
        let rest = text.skip(newline + 1);
        lemma_length_covers_head(rest);
        assert(all[0] == line);
        assert(all.drop_first() == lines(rest));
        assert(text == raw + seq!['\n'] + rest);
        lemma_encoded_newline(raw, rest);
        if raw != line {
            let end = seq!['\r'];
            assert(raw == line + end);
            is_ascii_chars_encode_utf8(end);
            lemma_encoded_parts(line, end);
        }
    }
}

/// What a line of a head adds to the length of a response, if that is known and a `usize` holds
/// it.
fn checked_line_length(line: &str) -> (length: Option<usize>)
    ensures
        match length {
            Some(length) => line_length(line@) == Some(length as nat),
            None => line_length(line@) is None || line_length(line@)->0 > usize::MAX,
        },
{
    proof {
        reveal_strlit("Content-Length: ");
    }
    let own: Option<usize> = line.as_bytes().len().checked_add(2);
    let chars = characters(line);
    if chars.len() >= 16 && same(line.substring_char(0, 16), "Content-Length: ") {
        assert(line@.take(16) == line@.subrange(0, 16));
        assert(line@.skip(16) == line@.subrange(16, line@.len() as int));
        match (own, parse_usize(line.substring_char(16, chars.len()), 10)) {
            (Some(own), Some(length)) => own.checked_add(length),
            _ => None,
        }
    } else {
        assert(line@.len() >= 16 ==> line@.take(16) == line@.subrange(0, 16));
        own
    }
}

/// Tries to find out how long the whole response will eventually be, in bytes.
///
/// `None` if the head gives a length that is not a number, or one that is too large.
pub fn checked_response_length(response: &str) -> (length: Option<usize>)
    ensures
        length == response_length(response@),
{
    let chars = characters(response);
    let mut length: usize = 0;
    let mut start: usize = 0;
    assert(response@.skip(0) == response@);
    while start < chars.len()
        invariant
            chars@ == response@,
            start <= chars@.len(),
            lines_length(lines(response@)) == match lines_length(
                lines(response@.skip(start as int)),
            ) {
                Some(rest) => Some(length as nat + rest),
                None => None,
            },
        decreases chars@.len() - start,
    {
        let ghost rest = response@.skip(start as int);
        let newline: usize = find(&chars, start, '\n');
        let ended = newline < chars.len();
        let end: usize = if ended && newline > start && chars[newline - 1] == '\r' {
            newline - 1
        } else {
            newline
        };
        let line = response.substring_char(start, end);
        proof {
            if ended {
                let raw = rest.take(position(rest, '\n'));
                assert(raw == response@.subrange(start as int, newline as int));
                assert(raw.len() > 0 ==> raw.last() == chars@[newline - 1]);
                assert(line@ == without_carriage_return(raw));
                assert(rest.skip(position(rest, '\n') + 1) == response@.skip(newline + 1));
            } else {
                assert(line@ == rest);
            }
            let split = lines(rest);
            assert(split[0] == line@);
            assert(split.drop_first() == if ended {
                lines(response@.skip(newline + 1))
            } else {
                Seq::<Seq<char>>::empty()
            });
        }
        let added: usize = match checked_line_length(line) {
            Some(added) => added,
            None => {
                return None;
            },
        };
        length = match length.checked_add(added) {
            Some(length) => length,
            None => {
                return None;
            },
        };
        start = if ended {
            newline + 1
        } else {
            newline
        };
        proof {
            if !ended {
                assert(response@.skip(start as int) == Seq::<char>::empty());
            }
        }
    }
    assert(response@.skip(start as int) == Seq::<char>::empty());
    Some(length)
}

/// Tries to find out how long the whole response will eventually be, in bytes.
pub fn get_response_length(response: &str) -> (length: usize)
    requires
        response_length(response@) is Some,
    ensures
        Some(length) == response_length(response@),
{
    match checked_response_length(response) {
        Some(length) => length,
        None => vstd::pervasive::unreached(),
    }
}

/// The length of a response as it is in the stream, out of its length with the head as a text in
/// UTF-8. The head has `count` characters.
pub(crate) fn length_in_stream(length: usize, head: &str, count: usize) -> (in_stream: usize)
    requires
        Some(length) == response_length(head@),
        count == head@.len(),
    ensures
        Some(in_stream) == stream_length(head@),
{
    let encoded: usize = head.as_bytes().len();
    proof {
        lemma_encoded_length(head@);
        lemma_length_covers_head(head@);
    }
    length - (encoded - count)
}

impl ResponseReader {
    /// Whether the count of the bytes is right.
    pub open spec fn valid(self) -> bool {
        self.byte_count == self.response@.len()
    }

    /// A reader of a response of which nothing was read yet.
    pub fn new(head: bool) -> (reader: ResponseReader)
        ensures
            reader@ == unread(head),
            reader.valid(),
    {
        ResponseReader {
            head,
            response: String::new(),
            response_length: None,
            byte_count: 0,
            blank_line: false,
            status_code: None,
        }
    }

    fn code(&self, response: &String) -> (code: i32)
        ensures
            code == status_code(self@, response@),
    {
        match self.status_code {
            Some(code) => code,
            None => parse_status_line(response.clone()).0,
        }
    }

    /// Whether `read_from_stream` takes the byte.
    pub fn accepts(&self, byte: u8) -> (yes: bool)
        ensures
            yes == accepted(self@, byte),
    {
        if byte == 0x0a && self.blank_line && self.response_length.is_none() {
            let mut response = self.response.clone();
            push(&mut response, byte as char);
            let code: i32 = self.code(&response);
            no_body(self.head, code) || checked_response_length(response.as_str()).is_some()
        } else {
            true
        }
    }
}

fn no_body(head: bool, code: i32) -> (yes: bool)
    ensures
        yes == bodiless(head, code),
{
    head || (100 <= code && code <= 199) || code == 204 || code == 304
}

/// Goes on reading a response with what a read of a byte gave, until it can't or it reaches the
/// end of the response.
pub fn read_from_stream(reader: ResponseReader, read: ByteRead) -> (step: ReadStep)
    requires
        reader.valid(),
        read matches Some(Ok(byte)) ==> accepted(reader@, byte),
    ensures
        step@ == read_progress(reader@, read),
        step matches ReadStep::More(reader) ==> reader.valid(),
{
    let byte = match read {
        None => {
            return ReadStep::Done(Ok(reader.response));
        },
        Some(Err(err)) => {
            return ReadStep::Done(Err(err));
        },
        Some(Ok(byte)) => byte,
    };
    let mut reader = reader;
    let ghost before = reader@;
    push(&mut reader.response, byte as char);
    // The text takes at least as many bytes as were read: the count cannot overflow.
    let _length: usize = reader.response.as_str().as_bytes().len();
    proof {
        lemma_encoded_length(reader.response@);
    }
    reader.byte_count = reader.byte_count + 1;
    if byte == 0x0a {
        // The status line is the first line.
        let code: i32 = reader.code(&reader.response);
        reader.status_code = Some(code);
        if reader.blank_line {
            if no_body(reader.head, code) {
                // The response ends here.
                reader.response_length = Some(reader.byte_count);
            } else if reader.response_length.is_none() {
                // There should be a body: its length is in the head.
                let length: usize = get_response_length(reader.response.as_str());
                reader.response_length = Some(
                    length_in_stream(length, reader.response.as_str(), reader.byte_count),
                );
            }
        }
        reader.blank_line = true;
    } else if byte != 0x0d {
        // A character of a line that is not blank.
        reader.blank_line = false;
    }
    assert(reader@ == with_byte(before, byte));
    if let Some(length) = reader.response_length {
        if reader.byte_count >= length {
            // The end of the response is reached.
            return ReadStep::Done(Ok(reader.response));
        }
    }
    ReadStep::More(reader)
}

} // verus!
