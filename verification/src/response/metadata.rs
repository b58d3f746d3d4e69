//! The status line and the headers of a response.

use crate::error::Error;
use crate::line::line_view;
use crate::number::{parse_i32, parse_usize, signed, unsigned};
use crate::outside::{lowercase, to_lowercase};
use crate::text::{characters, find, position, same, trim, trimmed};
use vstd::hash_map::StringHashMap;
use vstd::prelude::*;
use vstd::string::*;

verus! {

/// The status code and the reason phrase of a status line, which stand after its first and its
/// second space.
pub open spec fn status_line(line: Seq<char>) -> (i32, Seq<char>) {
    let after_version = line.skip(position(line, ' ') + 1);
    let space = position(after_version, ' ');
    let code = signed(after_version.take(space));
    if position(line, ' ') < line.len() && space < after_version.len() && code is Some {
        (code->0, after_version.skip(space + 1))
    } else {
        (503, "Server did not provide a status line"@)
    }
}

/// Whether `parse_header` takes the line: a colon in it is followed by a character of one byte.
pub open spec fn header_splits(line: Seq<char>) -> bool {
    let colon = position(line, ':');
    colon < line.len() ==> colon + 1 < line.len() && line[colon + 1] <= '\u{7f}'
}

/// The name and the value of a header line: what stands before its first colon, and what stands
/// after the character behind that.
pub open spec fn header(line: Seq<char>) -> Option<(Seq<char>, Seq<char>)> {
    let colon = position(line, ':');
    if colon < line.len() {
        Some((line.take(colon), line.skip(colon + 2)))
    } else {
        None
    }
}

/// The status code and the reason phrase of a response, out of its status line.
///
/// A line that gives no code counts as the code 503.
pub fn parse_status_line(line: String) -> (status: (i32, String))
    ensures
        (status.0, status.1@) == status_line(line@),
{
    let chars = characters(line.as_str());
    let first: usize = find(&chars, 0, ' ');
    assert(line@.skip(0) == line@);
    if first < chars.len() {
        let second: usize = find(&chars, first + 1, ' ');
        if second < chars.len() {
            let ghost after_version = line@.skip(first + 1);
            let code = line.as_str().substring_char(first + 1, second);
            assert(code@ == after_version.take(position(after_version, ' ')));
            if let Some(code) = parse_i32(code) {
                let reason = line.as_str().substring_char(second + 1, chars.len());
                assert(reason@ == after_version.skip(second - first));
                return (code, reason.to_owned());
            }
        }
    }
    (503, "Server did not provide a status line".to_owned())
}

/// Whether `parse_header` takes the line.
pub fn header_can_split(line: &str) -> (yes: bool)
    ensures
        yes == header_splits(line@),
{
    let chars = characters(line);
    let colon: usize = find(&chars, 0, ':');
    assert(line@.skip(0) == line@);
    if colon == chars.len() {
        true
    } else {
        colon + 1 < chars.len() && chars[colon + 1] <= '\u{7f}'
    }
}

/// The name and the value of a header, out of its line. A line without a colon has none.
pub fn parse_header(line: String) -> (parsed: Option<(String, String)>)
    requires
        header_splits(line@),
    ensures
        match parsed {
            Some((name, value)) => header(line@) == Some((name@, value@)),
            None => header(line@) is None,
        },
{
    let chars = characters(line.as_str());
    let colon: usize = find(&chars, 0, ':');
    assert(line@.skip(0) == line@);
    if colon < chars.len() {
        let name = line.as_str().substring_char(0, colon);
        let value = line.as_str().substring_char(colon + 2, chars.len());
        assert(name@ == line@.take(colon as int));
        assert(value@ == line@.skip(colon + 2));
        Some((name.to_owned(), value.to_owned()))
    } else {
        None
    }
}

/// The headers of a response, each value under its name.
pub open spec fn header_map(headers: StringHashMap<String>) -> Map<Seq<char>, Seq<char>> {
    headers@.map_values(|value: String| value@)
}

/// What the status line and the headers say of a response.
pub struct ResponseMetadata {
    /// The status code of the response, eg. 404.
    pub status_code: i32,
    /// The reason phrase of the response, eg. "Not Found".
    pub reason_phrase: String,
    /// The headers of the response.
    pub headers: StringHashMap<String>,
    /// Whether the body comes in chunks.
    pub chunked: bool,
    /// The length of the body, if it is known; for a body in chunks, what is left of the chunk.
    pub content_length: Option<usize>,
}

/// What a `ResponseMetadata` holds.
#[verifier::ext_equal]
pub struct Metadata {
    pub status_code: i32,
    pub reason_phrase: Seq<char>,
    pub headers: Map<Seq<char>, Seq<char>>,
    pub chunked: bool,
    pub content_length: Option<usize>,
}

impl View for ResponseMetadata {
    type V = Metadata;

    open spec fn view(&self) -> Metadata {
        Metadata {
            status_code: self.status_code,
            reason_phrase: self.reason_phrase@,
            headers: header_map(self.headers),
            chunked: self.chunked,
            content_length: self.content_length,
        }
    }
}

/// What a response that starts with the status line `line` is known to be before its headers.
pub open spec fn with_status(line: Seq<char>) -> Metadata {
    Metadata {
        status_code: status_line(line).0,
        reason_phrase: status_line(line).1,
        headers: Map::empty(),
        chunked: false,
        content_length: None,
    }
}

/// Whether `text` is `word`, but for upper case and for white space at both ends.
pub open spec fn reads(text: Seq<char>, word: Seq<char>) -> bool {
    trimmed(lowercase(text)) == word
}

/// Whether a header says that the body comes in chunks.
pub open spec fn says_chunked(name: Seq<char>, value: Seq<char>) -> bool {
    reads(name, "transfer-encoding"@) && reads(value, "chunked"@)
}

/// What is known of a response after one more header.
///
/// A body in chunks starts before its first chunk, of which nothing is left, whatever length
/// another header gives. Otherwise the first `Content-Length` gives the length of the body.
pub open spec fn with_header(known: Metadata, name: Seq<char>, value: Seq<char>) -> Result<
    Metadata,
    Error,
> {
    let headers = known.headers.insert(name, value);
    let length = unsigned(trimmed(value), 10, usize::MAX as nat);
    if !known.chunked && says_chunked(name, value) {
        Ok(Metadata { headers, chunked: true, content_length: Some(0), ..known })
    } else if known.content_length is None && reads(name, "content-length"@) {
        match length {
            Some(length) => Ok(
                Metadata { headers, content_length: Some(length as usize), ..known },
            ),
            None => Err(Error::MalformedContentLength),
        }
    } else {
        Ok(Metadata { headers, ..known })
    }
}

/// What is known of a response after one more line of its head that is not empty.
pub open spec fn with_header_line(known: Metadata, line: Seq<char>) -> Result<Metadata, Error> {
    match header(line) {
        Some((name, value)) => with_header(known, name, value),
        None => Ok(known),
    }
}

/// How far the reading of the head of a response has come.
pub enum MetadataState {
    /// The status line comes next.
    StatusLine,
    /// A header or the empty line that ends the head comes next.
    Headers(ResponseMetadata),
}

/// What is to be done next for the head of a response.
pub enum MetadataStep {
    /// The next line is wanted.
    More(MetadataState),
    /// What the head says, or why it could not be read.
    Done(Result<ResponseMetadata, Error>),
}

/// What a `MetadataStep` says. `More` holds what is known so far.
pub enum MetadataProgress {
    More(Metadata),
    Done(Result<Metadata, Error>),
}

impl MetadataState {
    /// What is known so far, if the status line was read.
    pub open spec fn known(self) -> Option<Metadata> {
        match self {
            MetadataState::StatusLine => None,
            MetadataState::Headers(metadata) => Some(metadata@),
        }
    }
}

/// How the reading of a head goes on from what is `known` when `line` comes next.
pub open spec fn metadata_progress(
    known: Option<Metadata>,
    line: Result<Seq<char>, Error>,
) -> MetadataProgress {
    match (known, line) {
        (_, Err(err)) => MetadataProgress::Done(Err(err)),
        (None, Ok(line)) => MetadataProgress::More(with_status(line)),
        (Some(known), Ok(line)) => if line.len() == 0 {
            MetadataProgress::Done(Ok(known))
        } else {
            match with_header_line(known, line) {
                Ok(known) => MetadataProgress::More(known),
                Err(err) => MetadataProgress::Done(Err(err)),
            }
        },
    }
}

impl MetadataStep {
    /// Whether this step is what `progress` says.
    pub open spec fn says(self, progress: MetadataProgress) -> bool {
        match (self, progress) {
            (MetadataStep::More(state), MetadataProgress::More(known)) => state.known() == Some(
                known,
            ),
            (MetadataStep::Done(Ok(metadata)), MetadataProgress::Done(Ok(known))) => metadata@
                == known,
            (MetadataStep::Done(Err(err)), MetadataProgress::Done(Err(expected))) => err == expected,
            _ => false,
        }
    }
}

/// Whether `text` is `word`, but for upper case and for white space at both ends.
fn reads_as(text: &str, word: &str) -> (yes: bool)
    ensures
        yes == reads(text@, word@),
{
    let lower = to_lowercase(text);
    same(trim(lower.as_str()), word)
}

impl ResponseMetadata {
    /// Takes one more header into account.
    fn add_header(self, name: String, value: String) -> (known: Result<ResponseMetadata, Error>)
        ensures
            match (known, with_header(self@, name@, value@)) {
                (Ok(known), Ok(expected)) => known@ == expected,
                (Err(err), Err(expected)) => err == expected,
                _ => false,
            },
    {
        let mut known = self;
        let ghost before = known@;
        if !known.chunked && reads_as(name.as_str(), "transfer-encoding") && reads_as(
            value.as_str(),
            "chunked",
        ) {
            known.chunked = true;
            known.content_length = Some(0);
        }
        if known.content_length.is_none() && reads_as(name.as_str(), "content-length") {
            match parse_usize(trim(value.as_str()), 10) {
                Some(length) => {
                    known.content_length = Some(length);
                },
                None => {
                    return Err(Error::MalformedContentLength);
                },
            }
        }
        let ghost headers = before.headers.insert(name@, value@);
        known.headers.insert(name, value);
        assert(header_map(known.headers) =~= headers);
        Ok(known)
    }
}

/// Goes on reading the head of a response with the next line, or with the error that came
/// instead.
pub fn read_metadata(state: MetadataState, line: Result<String, Error>) -> (step: MetadataStep)
    requires
        (state is Headers && line is Ok) ==> header_splits(line->Ok_0@),
    ensures
        step.says(metadata_progress(state.known(), line_view(line))),
{
    let line = match line {
        Ok(line) => line,
        Err(err) => {
            return MetadataStep::Done(Err(err));
        },
    };
    match state {
        MetadataState::StatusLine => {
            let (status_code, reason_phrase) = parse_status_line(line);
            let metadata = ResponseMetadata {
                status_code,
                reason_phrase,
                headers: StringHashMap::new(),
                chunked: false,
                content_length: None,
            };
            assert(header_map(metadata.headers) =~= Map::<Seq<char>, Seq<char>>::empty());
            MetadataStep::More(MetadataState::Headers(metadata))
        },
        MetadataState::Headers(metadata) => {
            if line.as_str().is_empty() {
                // The body starts here.
                return MetadataStep::Done(Ok(metadata));
            }
            match parse_header(line) {
                Some((name, value)) => match metadata.add_header(name, value) {
                    Ok(metadata) => MetadataStep::More(MetadataState::Headers(metadata)),
                    Err(err) => MetadataStep::Done(Err(err)),
                },
                None => MetadataStep::More(MetadataState::Headers(metadata)),
            }
        },
    }
}

} // verus!
