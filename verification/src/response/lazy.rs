//! A response whose body is loaded as it is asked for.

use crate::error::Error;
use crate::line::{line_view, ByteRead};
use crate::number::{parse_usize, unsigned};
use crate::response::metadata::{header_map, Metadata, ResponseMetadata};
use vstd::hash_map::StringHashMap;
use vstd::prelude::*;

verus! {

/// What a line is read for.
#[derive(Clone, Copy, Debug, PartialEq, Eq)]
pub enum LineWait {
    /// The length of the next chunk.
    ChunkLength,
    /// The end of the line behind the last byte of a chunk, which is this byte. The number is
    /// what was left of the chunk.
    ChunkEnd(u8, usize),
}

/// What a byte is read for.
#[derive(Clone, Copy, Debug, PartialEq, Eq)]
pub enum ByteWait {
    /// A byte of a body or a chunk of which this many bytes were left.
    Counted(usize),
    /// A byte of a body that ends with the stream.
    UntilClose,
}

/// What is to be done next for a byte of a body.
#[derive(Debug)]
pub enum Action {
    /// A line is to be read from the stream, and handed to `line_read`.
    ReadLine(LineWait),
    /// A byte is to be read from the stream, and handed to `byte_read`.
    ReadByte(ByteWait),
    /// This is the next byte and how many are expected from it on, or the error that came
    /// instead.
    Yield(Result<(u8, usize), Error>),
    /// The body is at its end.
    Finish,
}

/// How far the loading of a body has come.
#[derive(Clone, Copy, Debug, PartialEq, Eq)]
pub struct Body {
    /// What is left of the body, or of the chunk, if that is known.
    pub content_length: Option<usize>,
    /// Whether the body comes in chunks.
    pub chunked: bool,
    /// Whether the last chunk was read.
    pub chunks_done: bool,
}

/// How a body goes on when its next byte is due, and it is not the length of a chunk that is
/// needed first.
pub open spec fn byte_due(body: Body) -> (Body, Action) {
    match body.content_length {
        Some(left) => if left > 0 {
            (
                Body { content_length: Some((left - 1) as usize), ..body },
                Action::ReadByte(ByteWait::Counted(left)),
            )
        } else {
            (body, Action::Finish)
        },
        None => (body, Action::ReadByte(ByteWait::UntilClose)),
    }
}

/// How a body goes on when its next byte is asked for.
pub open spec fn byte_asked(body: Body) -> (Body, Action) {
    if !body.chunked {
        byte_due(body)
    } else if body.chunks_done {
        (body, Action::Finish)
    } else {
        match body.content_length {
            Some(left) => if left == 0 {
                (body, Action::ReadLine(LineWait::ChunkLength))
            } else {
                byte_due(body)
            },
            None => (
                body,
                Action::Yield(Err(Error::Other("content length was None in a chunked transfer"))),
            ),
        }
    }
}

/// How a body goes on when the line that it waited for was read.
pub open spec fn after_line(body: Body, wait: LineWait, line: Result<Seq<char>, Error>) -> (
    Body,
    Action,
) {
    match (wait, line) {
        (_, Err(err)) => (body, Action::Yield(Err(err))),
        (LineWait::ChunkEnd(byte, left), Ok(_)) => (body, Action::Yield(Ok((byte, left)))),
        (LineWait::ChunkLength, Ok(line)) => match unsigned(line, 16, usize::MAX as nat) {
            Some(length) => if length == 0 {
                (Body { chunks_done: true, ..body }, Action::Finish)
            } else {
                byte_due(Body { content_length: Some(length as usize), ..body })
            },
            None => (body, Action::Yield(Err(Error::MalformedChunkLength))),
        },
    }
}

/// How a body goes on when the byte that it waited for was read.
pub open spec fn after_byte(body: Body, wait: ByteWait, read: ByteRead) -> (Body, Action) {
    match (wait, read) {
        (_, None) => (body, Action::Finish),
        (_, Some(Err(err))) => (body, Action::Yield(Err(Error::IoError(err)))),
        (ByteWait::UntilClose, Some(Ok(byte))) => (body, Action::Yield(Ok((byte, 1)))),
        (ByteWait::Counted(left), Some(Ok(byte))) => if body.chunked && left == 1 {
            (body, Action::ReadLine(LineWait::ChunkEnd(byte, left)))
        } else {
            (body, Action::Yield(Ok((byte, left))))
        },
    }
}

/// An HTTP response, which is loaded lazily.
///
/// "Lazy loading" means that the bytes of the body are only read from the connection as they
/// are asked for. Each comes with the number of bytes that are expected in the future, itself
/// included. That number can change, particularly when the `Transfer-Encoding` is `chunked`:
/// then it tells how many bytes are left of the current chunk.
///
/// The response does not hold the connection. `next` asks for the next byte of the body. As long
/// as that takes a line or a byte of the stream, the caller reads it and hands it to `line_read`
/// or `byte_read`, until the answer is `Action::Yield` or `Action::Finish`.
pub struct ResponseLazy {
    /// The status code of the response, eg. 404.
    pub status_code: i32,
    /// The reason phrase of the response, eg. "Not Found".
    pub reason_phrase: String,
    /// The headers of the response.
    pub headers: StringHashMap<String>,
    /// How far the loading of the body has come.
    pub body: Body,
}

/// What a `ResponseLazy` holds.
#[verifier::ext_equal]
pub struct Lazy {
    pub status_code: i32,
    pub reason_phrase: Seq<char>,
    pub headers: Map<Seq<char>, Seq<char>>,
    pub body: Body,
}

impl View for ResponseLazy {
    type V = Lazy;

    open spec fn view(&self) -> Lazy {
        Lazy {
            status_code: self.status_code,
            reason_phrase: self.reason_phrase@,
            headers: header_map(self.headers),
            body: self.body,
        }
    }
}

/// The response that a head announces, before anything of its body was read.
pub open spec fn announced(metadata: Metadata) -> Lazy {
    Lazy {
        status_code: metadata.status_code,
        reason_phrase: metadata.reason_phrase,
        headers: metadata.headers,
        body: Body {
            content_length: metadata.content_length,
            chunked: metadata.chunked,
            chunks_done: false,
        },
    }
}

impl ResponseLazy {
    /// The response that the head of a stream announces, as `read_metadata` gives it.
    pub fn from_stream(metadata: Result<ResponseMetadata, Error>) -> (lazy: Result<
        ResponseLazy,
        Error,
    >)
        ensures
            match (lazy, metadata) {
                (Ok(lazy), Ok(metadata)) => lazy@ == announced(metadata@),
                (Err(err), Err(expected)) => err == expected,
                _ => false,
            },
    {
        match metadata {
            Ok(metadata) => Ok(
                ResponseLazy {
                    status_code: metadata.status_code,
                    reason_phrase: metadata.reason_phrase,
                    headers: metadata.headers,
                    body: Body {
                        content_length: metadata.content_length,
                        chunked: metadata.chunked,
                        chunks_done: false,
                    },
                },
            ),
            Err(err) => Err(err),
        }
    }

    /// What holds of the fields that loading the body never changes.
    pub open spec fn same_head(self, other: ResponseLazy) -> bool {
        &&& self.status_code == other.status_code
        &&& self.reason_phrase == other.reason_phrase
        &&& self.headers == other.headers
    }

    fn count_down(&mut self) -> (action: Action)
        ensures
            (final(self).body, action) == byte_due(old(self).body),
            final(self).same_head(*old(self)),
    {
        match self.body.content_length {
            Some(left) => {
                if left > 0 {
                    self.body.content_length = Some(left - 1);
                    Action::ReadByte(ByteWait::Counted(left))
                } else {
                    Action::Finish
                }
            },
            // The length is not known, and the body does not come in chunks: it goes on until
            // the connection ends.
            None => Action::ReadByte(ByteWait::UntilClose),
        }
    }

    /// Asks for the next byte of the body.
    pub fn next(&mut self) -> (action: Action)
        ensures
            (final(self).body, action) == byte_asked(old(self).body),
            final(self).same_head(*old(self)),
    {
        if self.body.chunked {
            if self.body.chunks_done {
                return Action::Finish;
            }
            match self.body.content_length {
                Some(left) => {
                    if left == 0 {
                        return Action::ReadLine(LineWait::ChunkLength);
                    }
                },
                None => {
                    return Action::Yield(
                        Err(Error::Other("content length was None in a chunked transfer")),
                    );
                },
            }
        }
        self.count_down()
    }

    /// Goes on with a line that was read from the stream, or with the error that came instead.
    pub fn line_read(&mut self, wait: LineWait, line: Result<String, Error>) -> (action: Action)
        ensures
            (final(self).body, action) == after_line(old(self).body, wait, line_view(line)),
            final(self).same_head(*old(self)),
    {
        let line = match line {
            Ok(line) => line,
            Err(err) => {
                return Action::Yield(Err(err));
            },
        };
        match wait {
            LineWait::ChunkEnd(byte, left) => Action::Yield(Ok((byte, left))),
            LineWait::ChunkLength => match parse_usize(line.as_str(), 16) {
                Some(length) => {
                    if length == 0 {
                        self.body.chunks_done = true;
                        return Action::Finish;
                    }
                    self.body.content_length = Some(length);
                    self.count_down()
                },
                None => Action::Yield(Err(Error::MalformedChunkLength)),
            },
        }
    }

    /// Goes on with what a read of a byte gave.
    pub fn byte_read(&mut self, wait: ByteWait, read: ByteRead) -> (action: Action)
        ensures
            (final(self).body, action) == after_byte(old(self).body, wait, read),
            final(self).same_head(*old(self)),
    {
        match read {
            None => Action::Finish,
            Some(Err(err)) => Action::Yield(Err(Error::IoError(err))),
            Some(Ok(byte)) => match wait {
                ByteWait::UntilClose => Action::Yield(Ok((byte, 1))),
                ByteWait::Counted(left) => {
                    if self.body.chunked && left == 1 {
                        // The last byte of the chunk was read: the line behind it ends next.
                        Action::ReadLine(LineWait::ChunkEnd(byte, left))
                    } else {
                        Action::Yield(Ok((byte, left)))
                    }
                },
            },
        }
    }
}

} // verus!
