//! A connection that always has a timeout, and reads its response by the length that the head
//! gives.

use crate::connection::{
    checked_response_length, lemma_encoded_length, length_in_stream, response_length, stream_length,
    timeout_in, variable_timeout, variable_view, Request,
};
use crate::line::ByteRead;
use crate::number::{decimal, law_decimal_is_read_back, unsigned};
use crate::outside::push;
use vstd::prelude::*;
use vstd::string::*;
use vstd::utf8::*;

verus! {

/// A connection to the server for sending a `Request`.
pub struct HTTPConnection {
    /// The request that is sent.
    pub request: Request,
    /// The timeout in seconds for reading and writing.
    pub timeout: u64,
}

/// What sending a request comes to: connect to `host`, with `timeout` for reads and writes, write
/// `bytes`, and hand what is read to `read_from_stream`, from `reader` on.
pub struct Sending {
    /// The host and the port to connect to.
    pub host: String,
    /// The timeout in seconds.
    pub timeout: u64,
    /// What is written to the connection.
    pub bytes: Vec<u8>,
    /// Reads the response.
    pub reader: CountingReader,
}

/// The timeout in seconds of a connection, by that of the request and by the text of the
/// environment variable.
pub open spec fn timeout_of(own: Option<u64>, variable: Option<Seq<char>>) -> u64 {
    match (own, timeout_in(variable)) {
        (Some(seconds), _) => seconds,
        (None, Some(seconds)) => seconds,
        (None, None) => 5,
    }
}

/// The timeout of the request comes before that of the variable. The variable gives every number
/// of seconds that is written in it. The timeout is five seconds if it is not set or not a number.
pub proof fn law_timeout(seconds: u64, variable: Option<Seq<char>>, text: Seq<char>)
    ensures
        timeout_of(Some(seconds), variable) == seconds,
        timeout_of(None, Some(decimal(seconds as nat))) == seconds,
        timeout_of(None, None) == 5,
        timeout_of(None, Some(text)) == match unsigned(text, 10, u64::MAX as nat) {
            Some(n) => n as u64,
            None => 5,
        },
{
    law_decimal_is_read_back(seconds as nat, u64::MAX as nat);
}

impl HTTPConnection {
    /// Creates a new `HTTPConnection`. The timeout is that of the request, or else the one that
    /// the environment variable `MINREQ_TIMEOUT` gives, or else five seconds.
    pub fn new(request: Request, variable: Option<String>) -> (connection: HTTPConnection)
        ensures
            connection.request == request,
            connection.timeout == timeout_of(request.timeout, variable_view(variable)),
    {
        let timeout: u64 = match request.timeout {
            Some(seconds) => seconds,
            None => match variable_timeout(variable) {
                Some(seconds) => seconds,
                // Not set, or not a number.
                None => 5,
            },
        };
        HTTPConnection { request, timeout }
    }

    /// Consumes this connection, and returns what there is to do to send its request.
    pub fn send(self) -> (sending: Sending)
        ensures
            sending.host == self.request.host,
            sending.timeout == self.timeout,
            sending.bytes@ == encode_utf8(self.request.text@),
            sending.reader@ == unread(),
            sending.reader.valid(),
    {
        let bytes = self.request.text.as_str().as_bytes_vec();
        Sending {
            host: self.request.host,
            timeout: self.timeout,
            bytes,
            reader: CountingReader::new(),
        }
    }
}

/// How far the reading of a response has come.
pub struct CountingReader {
    /// What was read, each byte as the character of that code.
    pub response: String,
    /// The length of the whole response, once it is known.
    pub response_length: Option<usize>,
    /// How many bytes were read.
    pub byte_count: usize,
    /// Whether nothing was read since the last newline, carriage returns aside.
    pub blank_line: bool,
}

/// What a `CountingReader` holds.
#[verifier::ext_equal]
pub struct Counting {
    pub response: Seq<char>,
    pub response_length: Option<usize>,
    pub byte_count: nat,
    pub blank_line: bool,
}

impl View for CountingReader {
    type V = Counting;

    open spec fn view(&self) -> Counting {
        Counting {
            response: self.response@,
            response_length: self.response_length,
            byte_count: self.byte_count as nat,
            blank_line: self.blank_line,
        }
    }
}

/// Before anything was read of a response.
pub open spec fn unread() -> Counting {
    Counting { response: Seq::empty(), response_length: None, byte_count: 0, blank_line: false }
}

/// What is to be done next for a response.
pub enum CountingStep {
    /// The next byte is wanted.
    More(CountingReader),
    /// The whole response, or the error that came instead of a byte.
    Done(Result<String, std::io::Error>),
}

/// What a `CountingStep` says.
pub enum CountingProgress {
    More(Counting),
    Done(Result<Seq<char>, std::io::Error>),
}

impl View for CountingStep {
    type V = CountingProgress;

    open spec fn view(&self) -> CountingProgress {
        match *self {
            CountingStep::More(reader) => CountingProgress::More(reader@),
            CountingStep::Done(Ok(text)) => CountingProgress::Done(Ok(text@)),
            CountingStep::Done(Err(err)) => CountingProgress::Done(Err(err)),
        }
    }
}

/// Whether `byte` ends the head of a response, so that the length of the response is needed.
pub open spec fn needs_length(counting: Counting, byte: u8) -> bool {
    byte == 0x0a && counting.blank_line && counting.response_length is None
}

/// Whether `read_from_stream` takes the byte: where the length of the response is needed, its
/// head must give it.
pub open spec fn accepted(counting: Counting, byte: u8) -> bool {
    needs_length(counting, byte) ==> response_length(counting.response.push(byte as char)) is Some
}

/// What was read of a response after one more byte.
pub open spec fn with_byte(counting: Counting, byte: u8) -> Counting {
    let response = counting.response.push(byte as char);
    Counting {
        response,
        response_length: if needs_length(counting, byte) {
            stream_length(response)
        } else {
            counting.response_length
        },
        byte_count: counting.byte_count + 1,
        blank_line: if byte == 0x0a {
            true
        } else if byte == 0x0d {
            counting.blank_line
        } else {
            false
        },
    }
}

/// How the reading of a response goes on when `read` comes next.
pub open spec fn read_progress(counting: Counting, read: ByteRead) -> CountingProgress {
    match read {
        None => CountingProgress::Done(Ok(counting.response)),
        Some(Err(err)) => CountingProgress::Done(Err(err)),
        Some(Ok(byte)) => {
            let counting = with_byte(counting, byte);
            if counting.response_length is Some && counting.byte_count
                == counting.response_length->0 {
                CountingProgress::Done(Ok(counting.response))
            } else {
                CountingProgress::More(counting)
            }
        },
    }
}

/// Tries to find out how long the whole response will eventually be, in bytes.
pub fn get_response_length(response: String) -> (length: usize)
    requires
        response_length(response@) is Some,
    ensures
        Some(length) == response_length(response@),
{
    crate::connection::get_response_length(response.as_str())
}

impl CountingReader {
    /// Whether the count of the bytes is right.
    pub open spec fn valid(self) -> bool {
        self.byte_count == self.response@.len()
    }

    /// A reader of a response of which nothing was read yet.
    pub fn new() -> (reader: CountingReader)
        ensures
            reader@ == unread(),
            reader.valid(),
    {
        CountingReader {
            response: String::new(),
            response_length: None,
            byte_count: 0,
            blank_line: false,
        }
    }

    /// Whether `read_from_stream` takes the byte.
    pub fn accepts(&self, byte: u8) -> (yes: bool)
        ensures
            yes == accepted(self@, byte),
    {
        if byte == 0x0a && self.blank_line && self.response_length.is_none() {
            let mut response = self.response.clone();
            push(&mut response, byte as char);
            checked_response_length(response.as_str()).is_some()
        } else {
            true
        }
    }
}

/// Goes on reading a response with what a read of a byte gave, until it can't or it reaches the
/// end of the response.
pub fn read_from_stream(reader: CountingReader, read: ByteRead) -> (step: CountingStep)
    requires
        reader.valid(),
        read matches Some(Ok(byte)) ==> accepted(reader@, byte),
    ensures
        step@ == read_progress(reader@, read),
        step matches CountingStep::More(reader) ==> reader.valid(),
{
    let byte = match read {
        None => {
            return CountingStep::Done(Ok(reader.response));
        },
        Some(Err(err)) => {
            return CountingStep::Done(Err(err));
        },
        Some(Ok(byte)) => byte,
    };
    let mut reader = reader;
    let ghost before = reader@;
    push(&mut reader.response, byte as char);
    // The text takes at least as many bytes as were read: the count cannot overflow.
    let _length: usize = reader.response.as_str().as_bytes().len();
    proof {
        lemma_encoded_length(reader.response@);
    }
    reader.byte_count = reader.byte_count + 1;
    if byte == 0x0a {
        // The end of a line: if it is that of the head, the length is in the head.
        if reader.blank_line && reader.response_length.is_none() {
            let length: usize = get_response_length(reader.response.clone());
            reader.response_length = Some(
                length_in_stream(length, reader.response.as_str(), reader.byte_count),
            );
        }
        reader.blank_line = true;
    } else if byte != 0x0d {
        // A character of a line that is not blank.
        reader.blank_line = false;
    }
    assert(reader@ == with_byte(before, byte));
    if let Some(length) = reader.response_length {
        if reader.byte_count == length {
            // The end of the response is reached.
            return CountingStep::Done(Ok(reader.response));
        }
    }
    CountingStep::More(reader)
}

} // verus!
