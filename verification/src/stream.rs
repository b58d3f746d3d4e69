//! What comes out when the reading of a response is driven by a whole stream.
//!
//! A stream is the sequence of what its reads give, up to its end. Behind the end, every read
//! gives nothing.

use crate::error::Error;
use crate::line::{line_progress, line_text, without_return, ByteRead, LineProgress};
use vstd::prelude::*;
use vstd::utf8::*;

pub mod body;
pub mod counting;
pub mod head;
pub mod message;
pub mod reading;

verus! {

/// What the reads of a stream give, up to its end.
pub type Stream = Seq<Result<u8, std::io::Error>>;

/// What the next read of a stream gives.
pub open spec fn next_read(stream: Stream) -> ByteRead {
    if stream.len() == 0 {
        None
    } else {
        Some(stream[0])
    }
}

/// A stream after its next read.
pub open spec fn after_read(stream: Stream) -> Stream {
    if stream.len() == 0 {
        stream
    } else {
        stream.drop_first()
    }
}

/// A stream of these bytes.
pub open spec fn bytes_stream(bytes: Seq<u8>) -> Stream {
    bytes.map_values(|byte: u8| Ok::<u8, std::io::Error>(byte))
}

/// The line that `read_line` gives for a stream from which `bytes` were read before, and what is
/// left of the stream.
pub open spec fn line_from(bytes: Seq<u8>, stream: Stream) -> (Result<Seq<char>, Error>, Stream)
    decreases stream.len(),
{
    match line_progress(bytes, next_read(stream)) {
        LineProgress::Done(line) => (line, after_read(stream)),
        LineProgress::More(bytes) => if stream.len() > 0 {
            line_from(bytes, after_read(stream))
        } else {
            (line_text(bytes), stream)
        },
    }
}

/// The line at the start of a stream, and what is left of the stream.
pub open spec fn first_line(stream: Stream) -> (Result<Seq<char>, Error>, Stream) {
    line_from(Seq::empty(), stream)
}

/// A line, as it stands in a stream.
pub open spec fn line_bytes(text: Seq<char>) -> Seq<u8> {
    encode_utf8(text) + seq![0x0d, 0x0a]
}

proof fn lemma_newline_encoding(c: char)
    requires
        c != '\n',
    ensures
        !encode_scalar(c as u32).contains(0x0a),
{
    let code = c as u32;
    assert(code <= 0x7f && code != 0x0a ==> (code & 0x7f) as u8 != 0x0a) by (bit_vector);
    assert(0xc0 | ((code >> 6) & 0x1f) as u8 != 0x0a) by (bit_vector);
    assert(0xe0 | ((code >> 12) & 0x0f) as u8 != 0x0a) by (bit_vector);
    assert(0xf0 | ((code >> 18) & 0x7) as u8 != 0x0a) by (bit_vector);
    assert(0x80 | (code & 0x3f) as u8 != 0x0a) by (bit_vector);
    assert(0x80 | ((code >> 6) & 0x3f) as u8 != 0x0a) by (bit_vector);
    assert(0x80 | ((code >> 12) & 0x3f) as u8 != 0x0a) by (bit_vector);
}

proof fn lemma_newline_not_encoded(text: Seq<char>)
    requires
        !text.contains('\n'),
    ensures
        !encode_utf8(text).contains(0x0a),
    decreases text.len(),
{
    if text.len() > 0 {
        let rest = text.drop_first();
        assert(text[0] != '\n');
        assert(!rest.contains('\n')) by {
            if rest.contains('\n') {
                let i = choose|i: int| 0 <= i < rest.len() && rest[i] == '\n';
                assert(text[i + 1] == '\n');
            }
        }
        lemma_newline_not_encoded(rest);
        lemma_newline_encoding(text[0]);
        let first = encode_scalar(text[0] as u32);
        let whole = encode_utf8(text);
        assert(whole == first + encode_utf8(rest));
        if whole.contains(0x0a) {
            let i = choose|i: int| 0 <= i < whole.len() && whole[i] == 0x0a;
            if i < first.len() {
                assert(first[i] == 0x0a);
            } else {
                assert(encode_utf8(rest)[i - first.len()] == 0x0a);
            }
        }
    }
}

proof fn lemma_line_from(read: Seq<u8>, bytes: Seq<u8>, rest: Stream)
    requires
        !bytes.contains(0x0a),
    ensures
        line_from(read, bytes_stream(bytes + seq![0x0a]) + rest) == (
            line_text(without_return(read + bytes)),
            rest,
        ),
    decreases bytes.len(),
{
    let stream = bytes_stream(bytes + seq![0x0a]) + rest;
    if bytes.len() == 0 {
        assert(stream[0] == Ok::<u8, std::io::Error>(0x0a));
        assert(after_read(stream) == rest);
        assert(read + bytes == read);
    } else {
        let first = bytes[0];
        let others = bytes.drop_first();
        assert(stream[0] == Ok::<u8, std::io::Error>(first));
        assert(first != 0x0a);
        assert(after_read(stream) == bytes_stream(others + seq![0x0a]) + rest);
        assert(!others.contains(0x0a)) by {
            if others.contains(0x0a) {
                let i = choose|i: int| 0 <= i < others.len() && others[i] == 0x0a;
                assert(bytes[i + 1] == 0x0a);
            }
        }
        lemma_line_from(read.push(first), others, rest);
        assert(read.push(first) + others == read + bytes);
    }
}

/// A text without newlines that is written as a line is read back as it is, and nothing behind
/// the line is read.
pub proof fn law_line_is_read_back(text: Seq<char>, rest: Stream)
    requires
        !text.contains('\n'),
    ensures
        first_line(bytes_stream(line_bytes(text)) + rest) == (
            Ok::<Seq<char>, Error>(text),
            rest,
        ),
{
    let bytes = encode_utf8(text) + seq![0x0d];
    lemma_newline_not_encoded(text);
    assert(!bytes.contains(0x0a)) by {
        if bytes.contains(0x0a) {
            let i = choose|i: int| 0 <= i < bytes.len() && bytes[i] == 0x0a;
            assert(encode_utf8(text)[i] == 0x0a);
        }
    }
    lemma_line_from(Seq::empty(), bytes, rest);
    assert(bytes + seq![0x0a] == line_bytes(text));
    assert(without_return(Seq::<u8>::empty() + bytes) == encode_utf8(text));
    encode_utf8_valid_utf8(text);
    encode_utf8_decode_utf8(text);
}

/// A newline ends a line. The byte before it is dropped, whatever it is, and what stands before
/// that is the line if it is UTF-8.
pub proof fn law_line_of_bytes(bytes: Seq<u8>, dropped: u8, rest: Stream)
    requires
        !bytes.contains(0x0a),
        dropped != 0x0a,
    ensures
        first_line(bytes_stream(bytes + seq![dropped, 0x0a]) + rest) == (
            if valid_utf8(bytes) {
                Ok(decode_utf8(bytes))
            } else {
                Err(Error::InvalidUtf8InResponse)
            },
            rest,
        ),
        first_line(bytes_stream(seq![0x0a]) + rest) == (Ok::<Seq<char>, Error>(Seq::empty()), rest),
{
    let line = bytes.push(dropped);
    assert(!line.contains(0x0a)) by {
        if line.contains(0x0a) {
            let i = choose|i: int| 0 <= i < line.len() && line[i] == 0x0a;
            assert(bytes[i] == 0x0a);
        }
    }
    lemma_line_from(Seq::empty(), line, rest);
    assert(line + seq![0x0a] == bytes + seq![dropped, 0x0a]);
    assert(without_return(Seq::<u8>::empty() + line) == bytes);
    let empty = Seq::<u8>::empty();
    lemma_line_from(empty, empty, rest);
    assert(empty + seq![0x0a] == seq![0x0au8]);
    assert(empty + empty == empty);
    encode_utf8_valid_utf8(Seq::empty());
    encode_utf8_decode_utf8(Seq::empty());
    assert(encode_utf8(Seq::empty()) == empty);
}

/// An error of reading, before the line was ended, is what comes instead of the line.
pub proof fn law_failed_line(read: Seq<u8>, bytes: Seq<u8>, err: std::io::Error, rest: Stream)
    requires
        !bytes.contains(0x0a),
    ensures
        ({
            let failed: Stream = seq![Err(err)];
            line_from(read, bytes_stream(bytes) + (failed + rest)) == (
                Err::<Seq<char>, Error>(Error::IoError(err)),
                rest,
            )
        }),
    decreases bytes.len(),
{
    let failed: Stream = seq![Err(err)];
    let stream = bytes_stream(bytes) + (failed + rest);
    if bytes.len() == 0 {
        assert(stream[0] == Err::<u8, std::io::Error>(err));
        assert(after_read(stream) == rest);
    } else {
        let others = bytes.drop_first();
        assert(stream[0] == Ok::<u8, std::io::Error>(bytes[0]));
        assert(after_read(stream) == bytes_stream(others) + (failed + rest));
        assert(!others.contains(0x0a)) by {
            if others.contains(0x0a) {
                let i = choose|i: int| 0 <= i < others.len() && others[i] == 0x0a;
                assert(bytes[i + 1] == 0x0a);
            }
        }
        law_failed_line(read.push(bytes[0]), others, err, rest);
    }
}

/// A stream that ends without a newline ends the line too, and all its bytes are of the line.
pub proof fn law_end_of_stream_ends_a_line(read: Seq<u8>, bytes: Seq<u8>)
    requires
        !bytes.contains(0x0a),
    ensures
        line_from(read, bytes_stream(bytes)) == (
            if valid_utf8(read + bytes) {
                Ok(decode_utf8(read + bytes))
            } else {
                Err(Error::InvalidUtf8InResponse)
            },
            Stream::empty(),
        ),
    decreases bytes.len(),
{
    let stream = bytes_stream(bytes);
    if bytes.len() == 0 {
        assert(stream == Stream::empty());
        assert(read + bytes == read);
    } else {
        let others = bytes.drop_first();
        assert(stream[0] == Ok::<u8, std::io::Error>(bytes[0]));
        assert(after_read(stream) == bytes_stream(others));
        assert(!others.contains(0x0a)) by {
            if others.contains(0x0a) {
                let i = choose|i: int| 0 <= i < others.len() && others[i] == 0x0a;
                assert(bytes[i + 1] == 0x0a);
            }
        }
        law_end_of_stream_ends_a_line(read.push(bytes[0]), others);
        assert(read.push(bytes[0]) + others == read + bytes);
    }
}

/// Reading a line never makes a stream longer, and takes something of one that has not ended.
pub proof fn lemma_line_shortens(bytes: Seq<u8>, stream: Stream)
    ensures
        line_from(bytes, stream).1.len() <= stream.len(),
        stream.len() > 0 ==> line_from(bytes, stream).1.len() < stream.len(),
    decreases stream.len(),
{
    if stream.len() > 0 {
        match line_progress(bytes, next_read(stream)) {
            LineProgress::Done(_) => {},
            LineProgress::More(bytes) => {
                lemma_line_shortens(bytes, after_read(stream));
            },
        }
    }
}

} // verus!
