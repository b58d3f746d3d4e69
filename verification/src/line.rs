//! Reading a line of a response, byte by byte.

use crate::error::Error;
use vstd::prelude::*;
use vstd::utf8::*;

verus! {

/// What one read of a byte gives: nothing at the end of the stream, or else a byte or the error
/// that came instead.
pub type ByteRead = Option<Result<u8, std::io::Error>>;

/// How far the reading of a line has come.
pub enum LineStep {
    /// The next byte is wanted, after these.
    More(Vec<u8>),
    /// The line, or why there is none.
    Done(Result<String, Error>),
}

/// What a `LineStep` says.
pub enum LineProgress {
    More(Seq<u8>),
    Done(Result<Seq<char>, Error>),
}

impl View for LineStep {
    type V = LineProgress;

    open spec fn view(&self) -> LineProgress {
        match *self {
            LineStep::More(bytes) => LineProgress::More(bytes@),
            LineStep::Done(line) => LineProgress::Done(line_view(line)),
        }
    }
}

/// The text of a line that was read.
pub open spec fn line_view(line: Result<String, Error>) -> Result<Seq<char>, Error> {
    match line {
        Ok(text) => Ok(text@),
        Err(err) => Err(err),
    }
}

/// The line that the bytes encode.
pub open spec fn line_text(bytes: Seq<u8>) -> Result<Seq<char>, Error> {
    if valid_utf8(bytes) {
        Ok(decode_utf8(bytes))
    } else {
        Err(Error::InvalidUtf8InResponse)
    }
}

/// The bytes of a line that a newline ends. Lines of HTTP end in a carriage return and a newline,
/// so the byte before the newline is not part of the line, whatever byte it is.
pub open spec fn without_return(bytes: Seq<u8>) -> Seq<u8> {
    if bytes.len() > 0 {
        bytes.drop_last()
    } else {
        bytes
    }
}

/// How the reading of a line goes on from `bytes` when `read` comes next.
pub open spec fn line_progress(bytes: Seq<u8>, read: ByteRead) -> LineProgress {
    match read {
        None => LineProgress::Done(line_text(bytes)),
        Some(Err(err)) => LineProgress::Done(Err(Error::IoError(err))),
        Some(Ok(byte)) => if byte == 0x0a {
            LineProgress::Done(line_text(without_return(bytes)))
        } else {
            LineProgress::More(bytes.push(byte))
        },
    }
}

/// The text that `bytes` encode, as a line of a response.
fn decode_line(bytes: Vec<u8>) -> (line: Result<String, Error>)
    ensures
        line_view(line) == line_text(bytes@),
{
    match std::str::from_utf8(bytes.as_slice()) {
        Ok(text) => Ok(text.to_owned()),
        Err(_) => Err(Error::InvalidUtf8InResponse),
    }
}

/// Goes on reading a line, of which `bytes` were read before, with the next read.
///
/// A newline ends the line, and takes the byte before it off the line. So does the end of the
/// stream, which takes nothing off.
pub fn read_line(bytes: Vec<u8>, read: ByteRead) -> (step: LineStep)
    ensures
        step@ == line_progress(bytes@, read),
{
    let mut bytes = bytes;
    match read {
        None => LineStep::Done(decode_line(bytes)),
        Some(Err(err)) => LineStep::Done(Err(Error::IoError(err))),
        Some(Ok(byte)) => {
            if byte == 0x0a {
                // Lines end in \r\n: the last byte is taken to be the \r, and goes.
                let ghost before = bytes@;
                bytes.pop();
                assert(bytes@ == without_return(before));
                LineStep::Done(decode_line(bytes))
            } else {
                bytes.push(byte);
                LineStep::More(bytes)
            }
        },
    }
}

} // verus!
