//! What comes out when the loading of a body is driven by a whole stream.

use crate::error::Error;
use crate::line::{line_progress, LineProgress};
use crate::number::{
    hexadecimal, law_hexadecimal_is_read_back, lemma_digits_are_plain, unsigned,
};
use crate::response::lazy::{
    after_byte, after_line, byte_asked, Action, Body, ByteWait, LineWait,
};
use crate::stream::{
    after_read, bytes_stream, first_line, law_end_of_stream_ends_a_line, law_failed_line,
    law_line_is_read_back, law_line_of_bytes, lemma_line_shortens, line_bytes, line_from, next_read,
    Stream,
};
use vstd::prelude::*;
use vstd::utf8::*;

verus! {

/// What asking for a byte of a body comes to.
pub struct Outcome {
    /// How far the loading of the body has come then.
    pub body: Body,
    /// The byte with the number of bytes that are expected from it on, or an error, or nothing
    /// at the end of the body.
    pub item: Option<Result<(u8, usize), Error>>,
    /// What is left of the stream.
    pub rest: Stream,
}

/// How many reads can come before a byte of a body, or its end, is known.
pub open spec fn reads_left(action: Action) -> nat {
    match action {
        Action::ReadLine(LineWait::ChunkLength) => 3,
        Action::ReadByte(ByteWait::Counted(_)) => 2,
        Action::ReadLine(LineWait::ChunkEnd(_, _)) => 1,
        Action::ReadByte(ByteWait::UntilClose) => 1,
        Action::Yield(_) => 0,
        Action::Finish => 0,
    }
}

/// What comes of `action` when the stream is read as it says.
pub open spec fn settled(body: Body, action: Action, stream: Stream) -> Outcome
    decreases reads_left(action),
{
    match action {
        Action::ReadLine(wait) => {
            let (line, rest) = first_line(stream);
            let (body, action) = after_line(body, wait, line);
            settled(body, action, rest)
        },
        Action::ReadByte(wait) => {
            let (body, action) = after_byte(body, wait, next_read(stream));
            settled(body, action, after_read(stream))
        },
        Action::Yield(item) => Outcome { body, item: Some(item), rest: stream },
        Action::Finish => Outcome { body, item: None, rest: stream },
    }
}

/// What asking for the next byte of a body comes to on a stream.
pub open spec fn next_from(body: Body, stream: Stream) -> Outcome {
    let (body, action) = byte_asked(body);
    settled(body, action, stream)
}

/// Asking for a byte never makes a stream longer, and a byte that comes was taken from it.
pub proof fn lemma_next_shortens(body: Body, stream: Stream)
    ensures
        next_from(body, stream).rest.len() <= stream.len(),
        next_from(body, stream).item matches Some(Ok(_)) ==> next_from(body, stream).rest.len()
            < stream.len(),
{
    reveal_with_fuel(settled, 4);
    lemma_line_shortens(Seq::empty(), stream);
    let (line, rest) = first_line(stream);
    lemma_line_shortens(Seq::empty(), after_read(stream));
    lemma_line_shortens(Seq::empty(), after_read(rest));
}

/// What loading the rest of a body comes to on a stream, after `loaded`.
pub struct Collected {
    /// The body, or the first error that came instead of a byte.
    pub bytes: Result<Seq<u8>, Error>,
    /// How far the loading of the body has come then.
    pub body: Body,
    /// What is left of the stream.
    pub rest: Stream,
}

/// Asks for the bytes of a body until its end, or until an error comes.
pub open spec fn collected(loaded: Seq<u8>, body: Body, stream: Stream) -> Collected
    decreases stream.len(),
{
    let next = next_from(body, stream);
    match next.item {
        None => Collected { bytes: Ok(loaded), body: next.body, rest: next.rest },
        Some(Err(err)) => Collected { bytes: Err(err), body: next.body, rest: next.rest },
        Some(Ok((byte, _))) => {
            proof {
                lemma_next_shortens(body, stream);
            }
            collected(loaded.push(byte), next.body, next.rest)
        },
    }
}

/// A body that does not come in chunks, of which this many bytes are left.
pub open spec fn counted(left: usize) -> Body {
    Body { content_length: Some(left), chunked: false, chunks_done: false }
}

/// A body that does not come in chunks, and ends with the stream.
pub open spec fn until_close() -> Body {
    Body { content_length: None, chunked: false, chunks_done: false }
}

/// A body in chunks, of which this many bytes are left of the chunk.
pub open spec fn in_chunk(left: usize) -> Body {
    Body { content_length: Some(left), chunked: true, chunks_done: false }
}

/// The next byte of a body of known length comes with the number of bytes that are left, itself
/// included, and one less is left behind it.
pub proof fn law_counted_byte(left: usize, byte: u8, rest: Stream)
    requires
        left > 0,
    ensures
        next_from(counted(left), bytes_stream(seq![byte]) + rest) == (Outcome {
            body: counted((left - 1) as usize),
            item: Some(Ok((byte, left))),
            rest,
        }),
{
    reveal_with_fuel(settled, 2);
    let stream = bytes_stream(seq![byte]) + rest;
    assert(after_read(stream) == rest);
}

/// An error that comes instead of a byte of a body of known length, or of a chunk, is handed out
/// as it is. The byte counts as read.
pub proof fn law_failed_byte(left: usize, err: std::io::Error, rest: Stream)
    requires
        left > 0,
    ensures
        ({
            let failed: Stream = seq![Err(err)];
            &&& next_from(counted(left), failed + rest) == (Outcome {
                body: counted((left - 1) as usize),
                item: Some(Err(Error::IoError(err))),
                rest,
            })
            &&& next_from(in_chunk(left), failed + rest) == (Outcome {
                body: in_chunk((left - 1) as usize),
                item: Some(Err(Error::IoError(err))),
                rest,
            })
            &&& next_from(until_close(), failed + rest) == (Outcome {
                body: until_close(),
                item: Some(Err(Error::IoError(err))),
                rest,
            })
        }),
{
    reveal_with_fuel(settled, 3);
    let failed: Stream = seq![Err(err)];
    let stream = failed + rest;
    assert(stream[0] == Err::<u8, std::io::Error>(err));
    assert(after_read(stream) == rest);
}

/// A byte of a body of unknown length comes with the number one: itself.
pub proof fn law_byte_until_close(byte: u8, rest: Stream)
    ensures
        next_from(until_close(), bytes_stream(seq![byte]) + rest) == (Outcome {
            body: until_close(),
            item: Some(Ok((byte, 1))),
            rest,
        }),
{
    reveal_with_fuel(settled, 2);
    let stream = bytes_stream(seq![byte]) + rest;
    assert(after_read(stream) == rest);
}

/// A body of known length is just that many bytes of the stream, and nothing behind them is
/// read.
pub proof fn law_counted_body(loaded: Seq<u8>, bytes: Seq<u8>, rest: Stream)
    requires
        bytes.len() <= usize::MAX,
    ensures
        collected(loaded, counted(bytes.len() as usize), bytes_stream(bytes) + rest) == (Collected {
            bytes: Ok(loaded + bytes),
            body: counted(0),
            rest,
        }),
    decreases bytes.len(),
{
    let stream = bytes_stream(bytes) + rest;
    if bytes.len() == 0 {
        reveal_with_fuel(settled, 2);
        assert(stream == rest);
        assert(loaded + bytes == loaded);
    } else {
        let others = bytes.drop_first();
        law_counted_byte(bytes.len() as usize, bytes[0], bytes_stream(others) + rest);
        assert(stream == bytes_stream(seq![bytes[0]]) + (bytes_stream(others) + rest));
        law_counted_body(loaded.push(bytes[0]), others, rest);
        assert(loaded.push(bytes[0]) + others == loaded + bytes);
    }
}

/// A stream that ends before a body of known length ends the body without an error.
pub proof fn law_short_body(loaded: Seq<u8>, left: usize, bytes: Seq<u8>)
    requires
        bytes.len() < left,
    ensures
        collected(loaded, counted(left), bytes_stream(bytes)).bytes == Ok::<Seq<u8>, Error>(
            loaded + bytes,
        ),
    decreases bytes.len(),
{
    let stream = bytes_stream(bytes);
    if bytes.len() == 0 {
        reveal_with_fuel(settled, 2);
        assert(loaded + bytes == loaded);
    } else {
        let others = bytes.drop_first();
        law_counted_byte(left, bytes[0], bytes_stream(others));
        assert(stream == bytes_stream(seq![bytes[0]]) + bytes_stream(others));
        law_short_body(loaded.push(bytes[0]), (left - 1) as usize, others);
        assert(loaded.push(bytes[0]) + others == loaded + bytes);
    }
}

/// An error of reading a body of known length is what loading the body comes to.
pub proof fn law_failed_body(
    loaded: Seq<u8>,
    left: usize,
    bytes: Seq<u8>,
    err: std::io::Error,
    rest: Stream,
)
    requires
        bytes.len() < left,
    ensures
        ({
            let failed: Stream = seq![Err(err)];
            collected(loaded, counted(left), bytes_stream(bytes) + failed + rest).bytes == Err::<
                Seq<u8>,
                Error,
            >(Error::IoError(err))
        }),
    decreases bytes.len(),
{
    let failed: Stream = seq![Err(err)];
    let stream = bytes_stream(bytes) + failed + rest;
    if bytes.len() == 0 {
        reveal_with_fuel(settled, 2);
        assert(stream[0] == Err::<u8, std::io::Error>(err));
    } else {
        let others = bytes.drop_first();
        let behind = bytes_stream(others) + failed + rest;
        law_counted_byte(left, bytes[0], behind);
        assert(stream == bytes_stream(seq![bytes[0]]) + behind);
        law_failed_body(loaded.push(bytes[0]), (left - 1) as usize, others, err, rest);
    }
}

/// A body of unknown length is the rest of the stream.
pub proof fn law_body_until_close(loaded: Seq<u8>, bytes: Seq<u8>)
    ensures
        collected(loaded, until_close(), bytes_stream(bytes)) == (Collected {
            bytes: Ok(loaded + bytes),
            body: until_close(),
            rest: Seq::empty(),
        }),
    decreases bytes.len(),
{
    reveal_with_fuel(settled, 2);
    let stream = bytes_stream(bytes);
    if bytes.len() == 0 {
        assert(stream == Stream::empty());
        assert(loaded + bytes == loaded);
    } else {
        let others = bytes.drop_first();
        assert(stream[0] == Ok::<u8, std::io::Error>(bytes[0]));
        assert(after_read(stream) == bytes_stream(others));
        law_body_until_close(loaded.push(bytes[0]), others);
        assert(loaded.push(bytes[0]) + others == loaded + bytes);
    }
}

/// An error of reading a body of unknown length is what loading the body comes to.
pub proof fn law_failed_body_until_close(
    loaded: Seq<u8>,
    bytes: Seq<u8>,
    err: std::io::Error,
    rest: Stream,
)
    ensures
        ({
            let failed: Stream = seq![Err(err)];
            collected(loaded, until_close(), bytes_stream(bytes) + failed + rest).bytes == Err::<
                Seq<u8>,
                Error,
            >(Error::IoError(err))
        }),
    decreases bytes.len(),
{
    reveal_with_fuel(settled, 2);
    let failed: Stream = seq![Err(err)];
    let stream = bytes_stream(bytes) + failed + rest;
    if bytes.len() == 0 {
        assert(stream[0] == Err::<u8, std::io::Error>(err));
    } else {
        let others = bytes.drop_first();
        assert(stream[0] == Ok::<u8, std::io::Error>(bytes[0]));
        assert(after_read(stream) == bytes_stream(others) + failed + rest);
        law_failed_body_until_close(loaded.push(bytes[0]), others, err, rest);
    }
}

/// A chunk of a body: how its length is written, and its bytes.
pub struct Chunk {
    pub length: Seq<char>,
    pub bytes: Seq<u8>,
}

/// Whether a text is a line that writes `number` in hexadecimal digits.
pub open spec fn writes(text: Seq<char>, number: nat) -> bool {
    unsigned(text, 16, usize::MAX as nat) == Some(number) && !text.contains('\n')
}

impl Chunk {
    /// Whether the length is that of the bytes, of which there are some.
    pub open spec fn valid(self) -> bool {
        self.bytes.len() > 0 && writes(self.length, self.bytes.len())
    }

    /// The chunk as it stands in a stream.
    pub open spec fn encoded(self) -> Seq<u8> {
        line_bytes(self.length) + self.bytes + seq![0x0d, 0x0a]
    }
}

/// The bytes of all chunks.
pub open spec fn chunks_content(chunks: Seq<Chunk>) -> Seq<u8>
    decreases chunks.len(),
{
    if chunks.len() == 0 {
        Seq::empty()
    } else {
        chunks[0].bytes + chunks_content(chunks.drop_first())
    }
}

/// A body in chunks as it stands in a stream: the chunks, and the line with the length zero.
pub open spec fn chunks_encoded(chunks: Seq<Chunk>, end: Seq<char>) -> Seq<u8>
    decreases chunks.len(),
{
    if chunks.len() == 0 {
        line_bytes(end)
    } else {
        chunks[0].encoded() + chunks_encoded(chunks.drop_first(), end)
    }
}

proof fn lemma_end_of_line_is_read(rest: Stream)
    ensures
        first_line(bytes_stream(seq![0x0d, 0x0a]) + rest) == (
            Ok::<Seq<char>, Error>(Seq::empty()),
            rest,
        ),
{
    let empty = Seq::<char>::empty();
    law_line_is_read_back(empty, rest);
    assert(line_bytes(empty) == seq![0x0du8, 0x0au8]);
}

/// The next byte of a chunk comes with the number of bytes that are left of the chunk, itself
/// included. Behind the last one, the end of the line is read.
pub proof fn law_chunk_byte(left: usize, byte: u8, rest: Stream)
    requires
        left > 0,
    ensures
        ({
            let behind: Seq<u8> = if left == 1 {
                seq![0x0d, 0x0a]
            } else {
                seq![]
            };
            next_from(in_chunk(left), bytes_stream(seq![byte] + behind) + rest) == (Outcome {
                body: in_chunk((left - 1) as usize),
                item: Some(Ok((byte, left))),
                rest,
            })
        }),
{
    reveal_with_fuel(settled, 3);
    let behind: Seq<u8> = if left == 1 {
        seq![0x0d, 0x0a]
    } else {
        seq![]
    };
    let stream = bytes_stream(seq![byte] + behind) + rest;
    assert(stream[0] == Ok::<u8, std::io::Error>(byte));
    if left == 1 {
        assert(after_read(stream) == bytes_stream(seq![0x0d, 0x0a]) + rest);
        lemma_end_of_line_is_read(rest);
    } else {
        assert(after_read(stream) == rest);
    }
}

proof fn lemma_rest_of_chunk(loaded: Seq<u8>, bytes: Seq<u8>, rest: Stream)
    requires
        0 < bytes.len() <= usize::MAX,
    ensures
        collected(
            loaded,
            in_chunk(bytes.len() as usize),
            bytes_stream(bytes + seq![0x0d, 0x0a]) + rest,
        ) == collected(loaded + bytes, in_chunk(0), rest),
    decreases bytes.len(),
{
    let stream = bytes_stream(bytes + seq![0x0d, 0x0a]) + rest;
    let others = bytes.drop_first();
    assert(loaded.push(bytes[0]) + others == loaded + bytes);
    if bytes.len() == 1 {
        law_chunk_byte(1, bytes[0], rest);
        assert(bytes + seq![0x0d, 0x0a] == seq![bytes[0]] + seq![0x0d, 0x0a]);
        assert(loaded.push(bytes[0]) == loaded + bytes);
    } else {
        let behind = bytes_stream(others + seq![0x0d, 0x0a]) + rest;
        law_chunk_byte(bytes.len() as usize, bytes[0], behind);
        assert(stream == bytes_stream(seq![bytes[0]] + seq![]) + behind);
        lemma_rest_of_chunk(loaded.push(bytes[0]), others, rest);
    }
}

proof fn lemma_start_of_chunk(length: Seq<char>, left: usize, stream: Stream)
    requires
        left > 0,
        writes(length, left as nat),
    ensures
        next_from(in_chunk(0), bytes_stream(line_bytes(length)) + stream) == next_from(
            in_chunk(left),
            stream,
        ),
{
    law_line_is_read_back(length, stream);
}

/// A body in chunks is read back as the bytes of its chunks, and nothing behind the line with
/// the length zero is read.
pub proof fn law_chunked_body(loaded: Seq<u8>, chunks: Seq<Chunk>, end: Seq<char>, rest: Stream)
    requires
        forall|i: int| 0 <= i < chunks.len() ==> chunks[i].valid(),
        writes(end, 0),
    ensures
        collected(loaded, in_chunk(0), bytes_stream(chunks_encoded(chunks, end)) + rest) == (
        Collected {
            bytes: Ok(loaded + chunks_content(chunks)),
            body: Body { chunks_done: true, ..in_chunk(0) },
            rest,
        }),
    decreases chunks.len(),
{
    let stream = bytes_stream(chunks_encoded(chunks, end)) + rest;
    if chunks.len() == 0 {
        reveal_with_fuel(settled, 2);
        law_line_is_read_back(end, rest);
        assert(loaded + chunks_content(chunks) == loaded);
    } else {
        let chunk = chunks[0];
        assert(chunk.valid());
        let others = chunks.drop_first();
        let behind = bytes_stream(chunks_encoded(others, end)) + rest;
        let content = bytes_stream(chunk.bytes + seq![0x0d, 0x0a]) + behind;
        assert(stream == bytes_stream(line_bytes(chunk.length)) + content);
        let left = chunk.bytes.len() as usize;
        lemma_start_of_chunk(chunk.length, left, content);
        assert(collected(loaded, in_chunk(0), stream) == collected(
            loaded,
            in_chunk(left),
            content,
        ));
        lemma_rest_of_chunk(loaded, chunk.bytes, behind);
        assert forall|i: int| 0 <= i < others.len() implies others[i].valid() by {
            assert(others[i] == chunks[i + 1]);
        }
        law_chunked_body(loaded + chunk.bytes, others, end, rest);
        assert(loaded + chunk.bytes + chunks_content(others) == loaded + chunks_content(chunks));
    }
}

/// A line that is not a length, where a chunk should start, is what loading the body comes to.
pub proof fn law_malformed_chunk(loaded: Seq<u8>, line: Seq<char>, rest: Stream)
    requires
        !line.contains('\n'),
        unsigned(line, 16, usize::MAX as nat) is None,
    ensures
        collected(loaded, in_chunk(0), bytes_stream(line_bytes(line)) + rest) == (Collected {
            bytes: Err(Error::MalformedChunkLength),
            body: in_chunk(0),
            rest,
        }),
{
    reveal_with_fuel(settled, 2);
    law_line_is_read_back(line, rest);
}

/// The line behind the last byte of a chunk is read with that byte, and is dropped whatever it is.
pub proof fn law_end_of_chunk(byte: u8, line: Seq<char>, rest: Stream)
    requires
        !line.contains('\n'),
    ensures
        next_from(
            in_chunk(1),
            bytes_stream(seq![byte]) + (bytes_stream(line_bytes(line)) + rest),
        ) == (Outcome { body: in_chunk(0), item: Some(Ok((byte, 1))), rest }),
{
    reveal_with_fuel(settled, 3);
    let behind = bytes_stream(line_bytes(line)) + rest;
    let stream = bytes_stream(seq![byte]) + behind;
    assert(stream[0] == Ok::<u8, std::io::Error>(byte));
    assert(after_read(stream) == behind);
    law_line_is_read_back(line, rest);
}

/// An error of reading the line behind a chunk comes instead of the last byte of the chunk.
pub proof fn law_failed_end_of_chunk(
    byte: u8,
    bytes: Seq<u8>,
    err: std::io::Error,
    rest: Stream,
)
    requires
        !bytes.contains(0x0a),
    ensures
        ({
            let failed: Stream = seq![Err(err)];
            next_from(
                in_chunk(1),
                bytes_stream(seq![byte]) + (bytes_stream(bytes) + (failed + rest)),
            ) == (Outcome { body: in_chunk(0), item: Some(Err(Error::IoError(err))), rest })
        }),
{
    reveal_with_fuel(settled, 3);
    let failed: Stream = seq![Err(err)];
    let behind = bytes_stream(bytes) + (failed + rest);
    let stream = bytes_stream(seq![byte]) + behind;
    assert(stream[0] == Ok::<u8, std::io::Error>(byte));
    assert(after_read(stream) == behind);
    law_failed_line(Seq::empty(), bytes, err, rest);
}

/// An error of reading the length of a chunk is what loading the body comes to.
pub proof fn law_failed_chunk_length(
    loaded: Seq<u8>,
    bytes: Seq<u8>,
    err: std::io::Error,
    rest: Stream,
)
    requires
        !bytes.contains(0x0a),
    ensures
        ({
            let failed: Stream = seq![Err(err)];
            collected(loaded, in_chunk(0), bytes_stream(bytes) + (failed + rest)) == (Collected {
                bytes: Err(Error::IoError(err)),
                body: in_chunk(0),
                rest,
            })
        }),
{
    reveal_with_fuel(settled, 2);
    law_failed_line(Seq::empty(), bytes, err, rest);
}

/// A line that is not UTF-8, where the length of a chunk or the end of one should stand, is what
/// loading the body comes to.
pub proof fn law_chunk_lines_are_utf8(
    loaded: Seq<u8>,
    byte: u8,
    bytes: Seq<u8>,
    dropped: u8,
    rest: Stream,
)
    requires
        !bytes.contains(0x0a),
        dropped != 0x0a,
        !valid_utf8(bytes),
    ensures
        ({
            let line = bytes_stream(bytes + seq![dropped, 0x0a]) + rest;
            &&& collected(loaded, in_chunk(0), line) == (Collected {
                bytes: Err(Error::InvalidUtf8InResponse),
                body: in_chunk(0),
                rest,
            })
            &&& collected(loaded, in_chunk(1), bytes_stream(seq![byte]) + line) == (Collected {
                bytes: Err(Error::InvalidUtf8InResponse),
                body: in_chunk(0),
                rest,
            })
        }),
{
    reveal_with_fuel(settled, 3);
    let line = bytes_stream(bytes + seq![dropped, 0x0a]) + rest;
    let stream = bytes_stream(seq![byte]) + line;
    assert(stream[0] == Ok::<u8, std::io::Error>(byte));
    assert(after_read(stream) == line);
    law_line_of_bytes(bytes, dropped, rest);
}

/// A stream that ends within a chunk ends the body without an error. One that ends where the
/// length of a chunk should stand has a malformed length there.
pub proof fn law_short_chunk(loaded: Seq<u8>, left: usize, bytes: Seq<u8>)
    requires
        bytes.len() < left,
    ensures
        collected(loaded, in_chunk(left), bytes_stream(bytes)).bytes == Ok::<Seq<u8>, Error>(
            loaded + bytes,
        ),
        collected(loaded, in_chunk(0), Stream::empty()).bytes == Err::<Seq<u8>, Error>(
            Error::MalformedChunkLength,
        ),
    decreases bytes.len(),
{
    reveal_with_fuel(settled, 2);
    let stream = bytes_stream(bytes);
    let empty = Seq::<u8>::empty();
    law_end_of_stream_ends_a_line(empty, empty);
    assert(bytes_stream(empty) == Stream::empty());
    assert(empty + empty == encode_utf8(Seq::empty()));
    encode_utf8_valid_utf8(Seq::empty());
    encode_utf8_decode_utf8(Seq::empty());
    if bytes.len() == 0 {
        assert(stream == Stream::empty());
        assert(loaded + bytes == loaded);
    } else {
        let others = bytes.drop_first();
        law_chunk_byte(left, bytes[0], bytes_stream(others));
        assert(stream == bytes_stream(seq![bytes[0]] + seq![]) + bytes_stream(others));
        law_short_chunk(loaded.push(bytes[0]), (left - 1) as usize, others);
        assert(loaded.push(bytes[0]) + others == loaded + bytes);
    }
}

/// An error of reading a chunk is what loading the body comes to.
pub proof fn law_failed_chunk(
    loaded: Seq<u8>,
    left: usize,
    bytes: Seq<u8>,
    err: std::io::Error,
    rest: Stream,
)
    requires
        bytes.len() < left,
    ensures
        ({
            let failed: Stream = seq![Err(err)];
            collected(loaded, in_chunk(left), bytes_stream(bytes) + (failed + rest)).bytes == Err::<
                Seq<u8>,
                Error,
            >(Error::IoError(err))
        }),
    decreases bytes.len(),
{
    let failed: Stream = seq![Err(err)];
    let stream = bytes_stream(bytes) + (failed + rest);
    if bytes.len() == 0 {
        assert(stream == failed + rest);
        law_failed_byte(left, err, rest);
    } else {
        let others = bytes.drop_first();
        let behind = bytes_stream(others) + (failed + rest);
        law_chunk_byte(left, bytes[0], behind);
        assert(stream == bytes_stream(seq![bytes[0]] + seq![]) + behind);
        law_failed_chunk(loaded.push(bytes[0]), (left - 1) as usize, others, err, rest);
    }
}

/// Some parts of a body as chunks in a stream: before each the number of its bytes in hexadecimal
/// digits, and behind the last the number zero.
pub open spec fn in_chunks(parts: Seq<Seq<u8>>) -> Seq<u8>
    decreases parts.len(),
{
    if parts.len() == 0 {
        line_bytes(seq!['0'])
    } else {
        line_bytes(hexadecimal(parts[0].len())) + parts[0] + seq![0x0d, 0x0a] + in_chunks(
            parts.drop_first(),
        )
    }
}

/// Some parts of a body, one behind the other.
pub open spec fn joined(parts: Seq<Seq<u8>>) -> Seq<u8>
    decreases parts.len(),
{
    if parts.len() == 0 {
        Seq::empty()
    } else {
        parts[0] + joined(parts.drop_first())
    }
}

/// Whether some parts of a body can be chunks: none is empty, and a `usize` holds the length of
/// each.
pub open spec fn are_parts(parts: Seq<Seq<u8>>) -> bool {
    forall|i: int| 0 <= i < parts.len() ==> 0 < (#[trigger] parts[i]).len() <= usize::MAX
}

/// The chunks of some parts of a body.
pub open spec fn chunks_of(parts: Seq<Seq<u8>>) -> Seq<Chunk> {
    parts.map_values(|part: Seq<u8>| Chunk { length: hexadecimal(part.len()), bytes: part })
}

/// The chunks of some parts stand in a stream as the parts do.
pub proof fn lemma_chunks_of_parts(parts: Seq<Seq<u8>>)
    requires
        are_parts(parts),
    ensures
        forall|i: int| 0 <= i < parts.len() ==> (#[trigger] chunks_of(parts)[i]).valid(),
        chunks_encoded(chunks_of(parts), seq!['0']) == in_chunks(parts),
        chunks_content(chunks_of(parts)) == joined(parts),
        writes(seq!['0'], 0),
    decreases parts.len(),
{
    let chunks = chunks_of(parts);
    assert forall|i: int| 0 <= i < parts.len() implies (#[trigger] chunks[i]).valid() by {
        let part = parts[i];
        law_hexadecimal_is_read_back(part.len(), usize::MAX as nat);
        lemma_digits_are_plain(part.len());
        assert(chunks[i] == (Chunk { length: hexadecimal(part.len()), bytes: part }));
    }
    law_hexadecimal_is_read_back(0, usize::MAX as nat);
    lemma_digits_are_plain(0);
    reveal_strlit("0123456789abcdef");
    assert(hexadecimal(0) == seq!['0']);
    if parts.len() > 0 {
        let others = parts.drop_first();
        assert forall|i: int| 0 <= i < others.len() implies 0 < (#[trigger] others[i]).len()
            <= usize::MAX by {
            assert(others[i] == parts[i + 1]);
        }
        lemma_chunks_of_parts(others);
        assert(chunks.drop_first() == chunks_of(others));
        assert(chunks[0] == (Chunk { length: hexadecimal(parts[0].len()), bytes: parts[0] }));
    }
}

/// A body whose parts come as chunks, each with the number of its bytes in hexadecimal digits, is
/// read back as its parts one behind the other.
pub proof fn law_parts_are_read_back(loaded: Seq<u8>, parts: Seq<Seq<u8>>, rest: Stream)
    requires
        are_parts(parts),
    ensures
        collected(loaded, in_chunk(0), bytes_stream(in_chunks(parts)) + rest) == (Collected {
            bytes: Ok(loaded + joined(parts)),
            body: Body { content_length: Some(0), chunked: true, chunks_done: true },
            rest,
        }),
{
    lemma_chunks_of_parts(parts);
    law_chunked_body(loaded, chunks_of(parts), seq!['0'], rest);
}

/// After the last chunk no byte comes, and nothing is read.
pub proof fn law_chunks_stay_done(body: Body, stream: Stream)
    requires
        body.chunked,
        body.chunks_done,
    ensures
        next_from(body, stream) == (Outcome { body, item: None, rest: stream }),
{
    reveal_with_fuel(settled, 2);
}

/// If what is left of the chunk is known, it stays known, and asking for a byte never fails for
/// want of it.
pub proof fn law_length_stays_known(body: Body, stream: Stream)
    requires
        body.chunked ==> body.content_length is Some,
    ensures
        ({
            let next = next_from(body, stream);
            &&& next.body.chunked == body.chunked
            &&& next.body.chunked ==> next.body.content_length is Some
            &&& !(next.item matches Some(Err(Error::Other(_))))
        }),
{
    reveal_with_fuel(settled, 4);
    lemma_line_errors(Seq::empty(), stream);
    lemma_line_errors(Seq::empty(), after_read(stream));
    lemma_line_errors(Seq::empty(), after_read(first_line(stream).1));
}

proof fn lemma_line_errors(bytes: Seq<u8>, stream: Stream)
    ensures
        !(line_from(bytes, stream).0 matches Err(Error::Other(_))),
    decreases stream.len(),
{
    if stream.len() > 0 {
        if let LineProgress::More(bytes) = line_progress(bytes, next_read(stream)) {
            lemma_line_errors(bytes, after_read(stream));
        }
    }
}

} // verus!
