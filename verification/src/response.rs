//! HTTP responses.

use crate::error::Error;
use crate::line::{line_view, ByteRead};
use crate::outside::{from_json, utf8_error};
use crate::response::lazy::{
    after_byte, after_line, byte_asked, Action, ByteWait, Lazy, LineWait, ResponseLazy,
};
use crate::response::metadata::header_map;
use serde_json::Error as JsonError;
use vstd::hash_map::StringHashMap;
use vstd::prelude::*;
use vstd::utf8::*;

pub mod lazy;
pub mod metadata;

verus! {

/// An HTTP response.
pub struct Response {
    /// The status code of the response, eg. 404.
    pub status_code: i32,
    /// The reason phrase of the response, eg. "Not Found".
    pub reason_phrase: String,
    /// The headers of the response.
    pub headers: StringHashMap<String>,
    /// The body of the response.
    pub body: Vec<u8>,
}

/// What a `Response` holds.
#[verifier::ext_equal]
pub struct Loaded {
    pub status_code: i32,
    pub reason_phrase: Seq<char>,
    pub headers: Map<Seq<char>, Seq<char>>,
    pub body: Seq<u8>,
}

impl View for Response {
    type V = Loaded;

    open spec fn view(&self) -> Loaded {
        Loaded {
            status_code: self.status_code,
            reason_phrase: self.reason_phrase@,
            headers: header_map(self.headers),
            body: self.body@,
        }
    }
}

/// The response with the head of `lazy` and the body `body`.
pub open spec fn loaded(lazy: Lazy, body: Seq<u8>) -> Loaded {
    Loaded {
        status_code: lazy.status_code,
        reason_phrase: lazy.reason_phrase,
        headers: lazy.headers,
        body,
    }
}

/// A response of which the body is being loaded.
pub struct PartialResponse {
    /// The response, as far as its body was asked for.
    pub parent: ResponseLazy,
    /// What was loaded of the body.
    pub body: Vec<u8>,
}

/// What is to be done next for a whole response.
pub enum CreateStep {
    /// A line is to be read from the stream, and handed to `line_read`.
    ReadLine(PartialResponse, LineWait),
    /// A byte is to be read from the stream, and handed to `byte_read`.
    ReadByte(PartialResponse, ByteWait),
    /// The response, or why it could not be loaded.
    Done(Result<Response, Error>),
}

/// What a `CreateStep` says.
pub enum CreateProgress {
    ReadLine(Lazy, Seq<u8>, LineWait),
    ReadByte(Lazy, Seq<u8>, ByteWait),
    Done(Result<Loaded, Error>),
}

impl View for CreateStep {
    type V = CreateProgress;

    open spec fn view(&self) -> CreateProgress {
        match *self {
            CreateStep::ReadLine(partial, wait) => CreateProgress::ReadLine(
                partial.parent@,
                partial.body@,
                wait,
            ),
            CreateStep::ReadByte(partial, wait) => CreateProgress::ReadByte(
                partial.parent@,
                partial.body@,
                wait,
            ),
            CreateStep::Done(Ok(response)) => CreateProgress::Done(Ok(response@)),
            CreateStep::Done(Err(err)) => CreateProgress::Done(Err(err)),
        }
    }
}

/// How a response of which `body` was loaded goes on when its next byte is asked for.
pub open spec fn create_asked(parent: Lazy, body: Seq<u8>) -> CreateProgress {
    let (asked, action) = byte_asked(parent.body);
    let parent = Lazy { body: asked, ..parent };
    match action {
        Action::ReadLine(wait) => CreateProgress::ReadLine(parent, body, wait),
        Action::ReadByte(wait) => CreateProgress::ReadByte(parent, body, wait),
        Action::Yield(Err(err)) => CreateProgress::Done(Err(err)),
        // This does not happen: no byte comes before something was read.
        Action::Yield(Ok((byte, _))) => CreateProgress::Done(Ok(loaded(parent, body.push(byte)))),
        Action::Finish => CreateProgress::Done(Ok(loaded(parent, body))),
    }
}

/// How a response of which `body` was loaded goes on after `action`.
pub open spec fn create_progress(parent: Lazy, body: Seq<u8>, action: Action) -> CreateProgress {
    match action {
        Action::ReadLine(wait) => CreateProgress::ReadLine(parent, body, wait),
        Action::ReadByte(wait) => CreateProgress::ReadByte(parent, body, wait),
        Action::Yield(Err(err)) => CreateProgress::Done(Err(err)),
        Action::Yield(Ok((byte, _))) => create_asked(parent, body.push(byte)),
        Action::Finish => CreateProgress::Done(Ok(loaded(parent, body))),
    }
}

impl PartialResponse {
    fn finish(self) -> (response: Response)
        ensures
            response@ == loaded(self.parent@, self.body@),
    {
        Response {
            status_code: self.parent.status_code,
            reason_phrase: self.parent.reason_phrase,
            headers: self.parent.headers,
            body: self.body,
        }
    }

    fn ask(self) -> (step: CreateStep)
        ensures
            step@ == create_asked(self.parent@, self.body@),
    {
        let mut partial = self;
        match partial.parent.next() {
            Action::ReadLine(wait) => CreateStep::ReadLine(partial, wait),
            Action::ReadByte(wait) => CreateStep::ReadByte(partial, wait),
            Action::Yield(Err(err)) => CreateStep::Done(Err(err)),
            Action::Yield(Ok(_)) => vstd::pervasive::unreached(),
            Action::Finish => CreateStep::Done(Ok(partial.finish())),
        }
    }

    fn act(self, action: Action) -> (step: CreateStep)
        ensures
            step@ == create_progress(self.parent@, self.body@, action),
    {
        let mut partial = self;
        match action {
            Action::ReadLine(wait) => CreateStep::ReadLine(partial, wait),
            Action::ReadByte(wait) => CreateStep::ReadByte(partial, wait),
            Action::Yield(Err(err)) => CreateStep::Done(Err(err)),
            Action::Yield(Ok((byte, _))) => {
                partial.body.push(byte);
                partial.ask()
            },
            Action::Finish => CreateStep::Done(Ok(partial.finish())),
        }
    }

    /// Goes on with a line that was read from the stream, or with the error that came instead.
    pub fn line_read(self, wait: LineWait, line: Result<String, Error>) -> (step: CreateStep)
        ensures
            ({
                let (body, action) = after_line(self.parent.body, wait, line_view(line));
                step@ == create_progress(Lazy { body, ..self.parent@ }, self.body@, action)
            }),
    {
        let mut partial = self;
        let action = partial.parent.line_read(wait, line);
        partial.act(action)
    }

    /// Goes on with what a read of a byte gave.
    pub fn byte_read(self, wait: ByteWait, read: ByteRead) -> (step: CreateStep)
        ensures
            ({
                let (body, action) = after_byte(self.parent.body, wait, read);
                step@ == create_progress(Lazy { body, ..self.parent@ }, self.body@, action)
            }),
    {
        let mut partial = self;
        let action = partial.parent.byte_read(wait, read);
        partial.act(action)
    }
}

impl Response {
    /// Starts to load the body of a response. One to a `HEAD` request has none.
    pub fn create(parent: ResponseLazy, is_head: bool) -> (step: CreateStep)
        ensures
            step@ == if is_head {
                CreateProgress::Done(Ok(loaded(parent@, Seq::empty())))
            } else {
                create_asked(parent@, Seq::empty())
            },
    {
        let partial = PartialResponse { parent, body: Vec::new() };
        if is_head {
            CreateStep::Done(Ok(partial.finish()))
        } else {
            partial.ask()
        }
    }

    /// Returns the body as an `&str`.
    ///
    /// # Errors
    ///
    /// Returns `InvalidUtf8InBody` if the body is not UTF-8, with a description as to why the
    /// bytes are not UTF-8.
    pub fn as_str(&self) -> (text: Result<&str, Error>)
        ensures
            match text {
                Ok(text) => valid_utf8(self.body@) && text@ == decode_utf8(self.body@)
                    && encode_utf8(text@) == self.body@,
                Err(err) => !valid_utf8(self.body@) && err == Error::InvalidUtf8InBody(
                    utf8_error(self.body@),
                ),
            },
    {
        match std::str::from_utf8(self.body.as_slice()) {
            Ok(text) => {
                proof {
                    decode_utf8_encode_utf8(self.body@);
                }
                Ok(text)
            },
            Err(err) => Err(Error::InvalidUtf8InBody(err)),
        }
    }

    /// Returns a reference to the contained bytes. If you want the `Vec<u8>` itself, use
    /// `into_bytes()` instead.
    pub fn as_bytes(&self) -> (bytes: &[u8])
        ensures
            bytes@ == self.body@,
    {
        self.body.as_slice()
    }

    /// Turns the `Response` into the inner `Vec<u8>`. If you just need a `&[u8]`, use
    /// `as_bytes()` instead.
    pub fn into_bytes(self) -> (bytes: Vec<u8>)
        ensures
            bytes@ == self.body@,
    {
        self.body
    }

    /// Converts JSON body to a `struct` using Serde.
    ///
    /// # Errors
    ///
    /// Returns `SerdeJsonError` if Serde runs into a problem, or `InvalidUtf8InBody` if the body
    /// is not UTF-8.
    pub fn json<'a, T>(&'a self) -> (value: Result<T, Error>) where T: serde::de::Deserialize<'a>
        ensures
            !valid_utf8(self.body@) ==> value == Err::<T, Error>(
                Error::InvalidUtf8InBody(utf8_error(self.body@)),
            ),
            valid_utf8(self.body@) ==> exists|text: &'a str, parsed: Result<T, JsonError>|
                text@ == decode_utf8(self.body@) && #[trigger] call_ensures(
                    from_json::<'a, T>,
                    (text,),
                    parsed,
                ) && value == json_value(parsed),
    {
        self.json_with(from_json::<'a, T>)
    }

    /// Converts the text of the body to a value, with a function that reads the value from JSON.
    ///
    /// The function is called on the text of a body that is UTF-8, and on no other.
    pub fn json_with<'a, T, F>(&'a self, parse: F) -> (value: Result<T, Error>) where
        F: FnOnce(&'a str) -> Result<T, JsonError>,

        requires
            forall|text: &'a str|
                valid_utf8(self.body@) && text@ == decode_utf8(self.body@)
                    ==> #[trigger] call_requires(parse, (text,)),
        ensures
            !valid_utf8(self.body@) ==> value == Err::<T, Error>(
                Error::InvalidUtf8InBody(utf8_error(self.body@)),
            ),
            valid_utf8(self.body@) ==> exists|text: &'a str, parsed: Result<T, JsonError>|
                text@ == decode_utf8(self.body@) && #[trigger] call_ensures(parse, (text,), parsed)
                    && value == json_value(parsed),
    {
        let text = match self.as_str() {
            Ok(text) => text,
            Err(err) => {
                return Err(err);
            },
        };
        match parse(text) {
            Ok(value) => Ok(value),
            Err(err) => Err(Error::SerdeJsonError(err)),
        }
    }
}

/// What is made of the answer of a function that reads a value from JSON.
pub open spec fn json_value<T>(parsed: Result<T, JsonError>) -> Result<T, Error> {
    match parsed {
        Ok(value) => Ok(value),
        Err(err) => Err(Error::SerdeJsonError(err)),
    }
}

} // verus!
