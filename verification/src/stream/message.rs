//! What comes out when the loading of a whole response is driven by a stream.

use crate::error::Error;
use crate::number::{decimal, lemma_digits_are_plain};
use crate::response::lazy::{after_byte, after_line, announced, byte_asked, Action, Lazy, LineWait};
use crate::response::metadata::Metadata;
use crate::response::{create_asked, create_progress, loaded, CreateProgress, Loaded};
use crate::stream::body::{
    are_parts, chunks_content, chunks_encoded, chunks_of, collected, in_chunks, joined,
    law_body_until_close, law_chunked_body, law_counted_body, lemma_chunks_of_parts,
    lemma_next_shortens, next_from, reads_left, settled, writes, Chunk,
};
use crate::stream::head::{
    head, head_bytes, headers_in, is_header_line, is_word, law_body_is_as_announced,
    law_chunked_head_has_length, law_chunks_are_announced, law_head_gives_written_code,
    law_head_is_read_back, law_header_is_read_back, law_headers_are_those_of_the_lines,
    law_length_is_announced, lemma_word, length_in, malformed_at, metadata_from,
};
use crate::stream::{after_read, bytes_stream, first_line, lemma_line_shortens, next_read, Stream};
use vstd::prelude::*;

verus! {

/// How many reads of an ended stream can come before a response is loaded.
pub open spec fn reads_at_end(step: CreateProgress) -> nat {
    match step {
        CreateProgress::ReadLine(_, _, LineWait::ChunkEnd(_, _)) => 2,
        CreateProgress::ReadLine(_, _, LineWait::ChunkLength) => 1,
        CreateProgress::ReadByte(_, _, _) => 1,
        CreateProgress::Done(_) => 0,
    }
}

/// The response that `Response::create` gives when the stream is read as its steps say, from
/// `step` on, and what is left of the stream.
pub open spec fn created(step: CreateProgress, stream: Stream) -> (Result<Loaded, Error>, Stream)
    decreases stream.len(), reads_at_end(step),
{
    match step {
        CreateProgress::ReadLine(parent, bytes, wait) => {
            let (line, rest) = first_line(stream);
            let (body, action) = after_line(parent.body, wait, line);
            proof {
                lemma_line_shortens(Seq::empty(), stream);
            }
            created(create_progress(Lazy { body, ..parent }, bytes, action), rest)
        },
        CreateProgress::ReadByte(parent, bytes, wait) => {
            let (body, action) = after_byte(parent.body, wait, next_read(stream));
            created(
                create_progress(Lazy { body, ..parent }, bytes, action),
                after_read(stream),
            )
        },
        CreateProgress::Done(response) => (response, stream),
    }
}

/// What loading the body of `parent` comes to, with the head of `parent`.
pub open spec fn with_body(parent: Lazy, bytes: Result<Seq<u8>, Error>) -> Result<Loaded, Error> {
    match bytes {
        Ok(bytes) => Ok(
            Loaded {
                status_code: parent.status_code,
                reason_phrase: parent.reason_phrase,
                headers: parent.headers,
                body: bytes,
            },
        ),
        Err(err) => Err(err),
    }
}

proof fn lemma_action_settles(parent: Lazy, bytes: Seq<u8>, action: Action, stream: Stream)
    ensures
        ({
            let outcome = settled(parent.body, action, stream);
            let asked = Lazy { body: outcome.body, ..parent };
            created(create_progress(parent, bytes, action), stream) == match outcome.item {
                None => (Ok(loaded(asked, bytes)), outcome.rest),
                Some(Err(err)) => (Err(err), outcome.rest),
                Some(Ok((byte, _))) => created(
                    create_asked(asked, bytes.push(byte)),
                    outcome.rest,
                ),
            }
        }),
    decreases reads_left(action),
{
    match action {
        Action::ReadLine(wait) => {
            let (line, rest) = first_line(stream);
            let (body, action) = after_line(parent.body, wait, line);
            lemma_action_settles(Lazy { body, ..parent }, bytes, action, rest);
        },
        Action::ReadByte(wait) => {
            let (body, action) = after_byte(parent.body, wait, next_read(stream));
            lemma_action_settles(Lazy { body, ..parent }, bytes, action, after_read(stream));
        },
        _ => {},
    }
}

/// Loading a whole response gives its head, and the body that asking for one byte after another
/// gives.
pub proof fn law_response_is_collected(parent: Lazy, bytes: Seq<u8>, stream: Stream)
    ensures
        created(create_asked(parent, bytes), stream) == (
            with_body(parent, collected(bytes, parent.body, stream).bytes),
            collected(bytes, parent.body, stream).rest,
        ),
    decreases stream.len(),
{
    let (body, action) = byte_asked(parent.body);
    let asked = Lazy { body, ..parent };
    lemma_action_settles(asked, bytes, action, stream);
    let next = next_from(parent.body, stream);
    lemma_next_shortens(parent.body, stream);
    if let Some(Ok((byte, _))) = next.item {
        law_response_is_collected(
            Lazy { body: next.body, ..parent },
            bytes.push(byte),
            next.rest,
        );
    }
}

/// The response that a stream gives: its head by `read_metadata` and `ResponseLazy::from_stream`,
/// its body by `Response::create`. With it, what is left of the stream.
pub open spec fn response_from(is_head: bool, stream: Stream) -> (Result<Loaded, Error>, Stream) {
    let (metadata, rest) = metadata_from(None, stream);
    match metadata {
        Ok(metadata) => if is_head {
            (Ok(loaded(announced(metadata), Seq::empty())), rest)
        } else {
            created(create_asked(announced(metadata), Seq::empty()), rest)
        },
        Err(err) => (Err(err), rest),
    }
}

/// Whether a status line and header lines can stand in a head, and what they say is `known`.
pub open spec fn is_head_of(status: Seq<char>, lines: Seq<Seq<char>>, known: Metadata) -> bool {
    &&& !status.contains('\n')
    &&& forall|i: int| 0 <= i < lines.len() ==> is_header_line(#[trigger] lines[i])
    &&& head(status, lines) == Ok::<Metadata, Error>(known)
}

/// The response with this head and this body.
pub open spec fn message(known: Metadata, body: Seq<u8>) -> Loaded {
    Loaded {
        status_code: known.status_code,
        reason_phrase: known.reason_phrase,
        headers: known.headers,
        body,
    }
}

/// A response has the status code, the reason phrase and the headers of its head, and its body.
pub proof fn law_message_keeps_its_parts(known: Metadata, body: Seq<u8>)
    ensures
        message(known, body).status_code == known.status_code,
        message(known, body).reason_phrase == known.reason_phrase,
        message(known, body).headers == known.headers,
        message(known, body).body == body,
{
}

/// A response to a `HEAD` request is its head. Nothing behind the head is read, whatever the head
/// says of a body.
pub proof fn law_response_to_head(
    status: Seq<char>,
    lines: Seq<Seq<char>>,
    known: Metadata,
    rest: Stream,
)
    requires
        is_head_of(status, lines, known),
    ensures
        response_from(true, bytes_stream(head_bytes(status, lines)) + rest) == (
            Ok::<Loaded, Error>(message(known, Seq::empty())),
            rest,
        ),
{
    law_head_is_read_back(status, lines, rest);
}

/// A response whose head gives the length of the body is read back with its body, and nothing
/// behind it is read.
pub proof fn law_response_of_known_length(
    status: Seq<char>,
    lines: Seq<Seq<char>>,
    known: Metadata,
    body: Seq<u8>,
    rest: Stream,
)
    requires
        is_head_of(status, lines, known),
        !known.chunked,
        known.content_length is Some,
        known.content_length->0 == body.len(),
    ensures
        response_from(
            false,
            bytes_stream(head_bytes(status, lines)) + (bytes_stream(body) + rest),
        ) == (
            Ok::<Loaded, Error>(message(known, body)),
            rest,
        ),
{
    let behind = bytes_stream(body) + rest;
    law_head_is_read_back(status, lines, behind);
    law_response_is_collected(announced(known), Seq::empty(), behind);
    law_counted_body(Seq::empty(), body, rest);
    assert(Seq::<u8>::empty() + body == body);
}

/// A response whose head gives no length is read back with all that is left of the stream as its
/// body.
pub proof fn law_response_of_unknown_length(
    status: Seq<char>,
    lines: Seq<Seq<char>>,
    known: Metadata,
    body: Seq<u8>,
)
    requires
        is_head_of(status, lines, known),
        !known.chunked,
        known.content_length is None,
    ensures
        response_from(false, bytes_stream(head_bytes(status, lines)) + bytes_stream(body)) == (
            Ok::<Loaded, Error>(message(known, body)),
            Stream::empty(),
        ),
{
    let behind = bytes_stream(body);
    law_head_is_read_back(status, lines, behind);
    law_response_is_collected(announced(known), Seq::empty(), behind);
    law_body_until_close(Seq::empty(), body);
    assert(Seq::<u8>::empty() + body == body);
}

/// A response whose body comes in chunks is read back with the bytes of the chunks as its body,
/// and nothing behind the line that ends them is read.
pub proof fn law_response_in_chunks(
    status: Seq<char>,
    lines: Seq<Seq<char>>,
    known: Metadata,
    chunks: Seq<Chunk>,
    end: Seq<char>,
    rest: Stream,
)
    requires
        is_head_of(status, lines, known),
        known.chunked,
        forall|i: int| 0 <= i < chunks.len() ==> (#[trigger] chunks[i]).valid(),
        writes(end, 0),
    ensures
        response_from(
            false,
            bytes_stream(head_bytes(status, lines)) + (bytes_stream(chunks_encoded(chunks, end))
                + rest),
        ) == (
            Ok::<Loaded, Error>(message(known, chunks_content(chunks))),
            rest,
        ),
{
    let behind = bytes_stream(chunks_encoded(chunks, end)) + rest;
    law_head_is_read_back(status, lines, behind);
    law_chunked_head_has_length(status, lines);
    law_response_is_collected(announced(known), Seq::empty(), behind);
    law_chunked_body(Seq::empty(), chunks, end, rest);
    assert(Seq::<u8>::empty() + chunks_content(chunks) == chunks_content(chunks));
}

/// The status line of a version, a code and a reason.
pub open spec fn status_of(version: Seq<char>, code: nat, reason: Seq<char>) -> Seq<char> {
    version + seq![' '] + decimal(code) + seq![' '] + reason
}

/// Whether a version, a code and a reason can stand in a status line.
pub open spec fn is_status(version: Seq<char>, code: i32, reason: Seq<char>) -> bool {
    &&& code >= 0
    &&& !version.contains(' ')
    &&& !version.contains('\n')
    &&& !reason.contains('\n')
}

proof fn lemma_status_is_a_line(version: Seq<char>, code: i32, reason: Seq<char>)
    requires
        is_status(version, code, reason),
    ensures
        !status_of(version, code as nat, reason).contains('\n'),
{
    let digits = decimal(code as nat);
    let line = status_of(version, code as nat, reason);
    lemma_digits_are_plain(code as nat);
    if line.contains('\n') {
        let i = choose|i: int| 0 <= i < line.len() && line[i] == '\n';
        let end = version.len() + 1 + digits.len();
        if i < version.len() {
            assert(version[i] == '\n');
        } else if version.len() < i < end {
            assert(digits[i - version.len() - 1] == '\n');
        } else if i > end {
            assert(reason[i - end - 1] == '\n');
        }
    }
}

/// A response with the header `Content-Length`, its name in letters of any case, is read back with
/// the code and the reason of its status line and with as many bytes as the header announces.
pub proof fn law_written_response(
    version: Seq<char>,
    code: i32,
    reason: Seq<char>,
    name: Seq<char>,
    body: Seq<u8>,
    rest: Stream,
)
    requires
        is_status(version, code, reason),
        is_word(name, "content-length"@),
        body.len() <= usize::MAX,
    ensures
        ({
            let line = name + seq![':', ' '] + decimal(body.len());
            response_from(
                false,
                bytes_stream(head_bytes(status_of(version, code as nat, reason), seq![line])) + (
                bytes_stream(body) + rest),
            ) == (
                Ok::<Loaded, Error>(
                    (Loaded {
                        status_code: code,
                        reason_phrase: reason,
                        headers: map![name => decimal(body.len())],
                        body,
                    }),
                ),
                rest,
            )
        }),
{
    let value = decimal(body.len());
    let line = name + seq![':', ' '] + value;
    let none = Seq::<Seq<char>>::empty();
    let lines = seq![line];
    let status = status_of(version, code as nat, reason);
    assert(none + seq![line] + none == lines);
    lemma_status_is_a_line(version, code, reason);
    law_length_is_announced(status, none, name, body.len() as usize, none);
    law_head_gives_written_code(version, code, reason, lines);
    law_headers_are_those_of_the_lines(status, lines);
    lemma_word_is_a_name(name, "content-length"@);
    law_header_is_read_back(name, value);
    lemma_digits_are_plain(body.len());
    lemma_one_line(name, value);
    let known = head(status, lines)->Ok_0;
    law_response_of_known_length(status, lines, known, body, rest);
}

proof fn lemma_word_is_a_name(text: Seq<char>, word: Seq<char>)
    requires
        is_word(text, word),
        word == "content-length"@ || word == "transfer-encoding"@ || word == "chunked"@,
    ensures
        !text.contains(':'),
        !text.contains('\n'),
{
    reveal_strlit("content-length");
    reveal_strlit("transfer-encoding");
    reveal_strlit("chunked");
    if text.contains(':') {
        let i = choose|i: int| 0 <= i < text.len() && text[i] == ':';
        assert(word[i] == text[i]);
    }
    if text.contains('\n') {
        let i = choose|i: int| 0 <= i < text.len() && text[i] == '\n';
        assert(word[i] == text[i]);
    }
}

proof fn lemma_one_line(name: Seq<char>, value: Seq<char>)
    requires
        !name.contains(':'),
        !name.contains('\n'),
        !value.contains('\n'),
    ensures
        is_header_line(name + seq![':', ' '] + value),
        headers_in(seq![name + seq![':', ' '] + value]) == map![name => value],
{
    let line = name + seq![':', ' '] + value;
    law_header_is_read_back(name, value);
    if line.contains('\n') {
        let i = choose|i: int| 0 <= i < line.len() && line[i] == '\n';
        if i < name.len() {
            assert(name[i] == '\n');
        } else if i >= name.len() + 2 {
            assert(value[i - name.len() - 2] == '\n');
        }
    }
    let lines = seq![line];
    assert(lines.drop_last() == Seq::<Seq<char>>::empty());
    assert(headers_in(lines.drop_last()) == Map::<Seq<char>, Seq<char>>::empty());
    assert(headers_in(lines) =~= map![name => value]);
}

/// A response with the header `Transfer-Encoding: chunked`, in letters of any case, is read back
/// with the code and the reason of its status line and with the parts of its body one behind the
/// other, where each part comes behind the number of its bytes in hexadecimal digits.
pub proof fn law_written_response_in_chunks(
    version: Seq<char>,
    code: i32,
    reason: Seq<char>,
    name: Seq<char>,
    value: Seq<char>,
    parts: Seq<Seq<u8>>,
    rest: Stream,
)
    requires
        is_status(version, code, reason),
        is_word(name, "transfer-encoding"@),
        is_word(value, "chunked"@),
        are_parts(parts),
    ensures
        ({
            let line = name + seq![':', ' '] + value;
            response_from(
                false,
                bytes_stream(head_bytes(status_of(version, code as nat, reason), seq![line])) + (
                bytes_stream(in_chunks(parts)) + rest),
            ) == (
                Ok::<Loaded, Error>(
                    (Loaded {
                        status_code: code,
                        reason_phrase: reason,
                        headers: map![name => value],
                        body: joined(parts),
                    }),
                ),
                rest,
            )
        }),
{
    let line = name + seq![':', ' '] + value;
    let none = Seq::<Seq<char>>::empty();
    let lines = seq![line];
    let status = status_of(version, code as nat, reason);
    assert(none + seq![line] + none == lines);
    lemma_status_is_a_line(version, code, reason);
    law_chunks_are_announced(status, none, name, value, none);
    law_head_gives_written_code(version, code, reason, lines);
    law_headers_are_those_of_the_lines(status, lines);
    lemma_word_is_a_name(name, "transfer-encoding"@);
    lemma_word_is_a_name(value, "chunked"@);
    law_header_is_read_back(name, value);
    lemma_one_line(name, value);
    law_body_is_as_announced(status, lines);
    assert(head(status, lines) is Ok) by {
        lemma_chunked_word_is_no_length(name, value);
        assert forall|at: int| !#[trigger] malformed_at(lines, at) by {}
    }
    let known = head(status, lines)->Ok_0;
    lemma_chunks_of_parts(parts);
    let chunks = chunks_of(parts);
    law_response_in_chunks(status, lines, known, chunks, seq!['0'], rest);
}

proof fn lemma_chunked_word_is_no_length(name: Seq<char>, value: Seq<char>)
    requires
        is_word(name, "transfer-encoding"@),
    ensures
        length_in(name + seq![':', ' '] + value) is None,
{
    reveal_strlit("content-length");
    reveal_strlit("transfer-encoding");
    lemma_word_is_a_name(name, "transfer-encoding"@);
    law_header_is_read_back(name, value);
    lemma_word(name, "transfer-encoding"@);
    assert("content-length"@.len() != "transfer-encoding"@.len());
}

/// A response without headers is read back with the code and the reason of its status line and
/// with all that is left of the stream.
pub proof fn law_written_response_until_close(
    version: Seq<char>,
    code: i32,
    reason: Seq<char>,
    body: Seq<u8>,
)
    requires
        is_status(version, code, reason),
    ensures
        response_from(
            false,
            bytes_stream(head_bytes(status_of(version, code as nat, reason), seq![]))
                + bytes_stream(body),
        ) == (
            Ok::<Loaded, Error>(
                (Loaded {
                    status_code: code,
                    reason_phrase: reason,
                    headers: Map::empty(),
                    body,
                }),
            ),
            Stream::empty(),
        ),
{
    let lines = Seq::<Seq<char>>::empty();
    let status = status_of(version, code as nat, reason);
    lemma_status_is_a_line(version, code, reason);
    law_head_gives_written_code(version, code, reason, lines);
    law_response_of_unknown_length(status, lines, head(status, lines)->Ok_0, body);
}

} // verus!
