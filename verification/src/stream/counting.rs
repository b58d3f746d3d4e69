//! What comes out when the reading of a response by its length alone is driven by a whole stream.

use crate::connection::http_connection::{
    accepted, read_progress, unread, Counting, CountingProgress,
};
use crate::connection::{
    lemma_encoded_length, lemma_length_covers_head, stream_length, with_byte, Reading,
};
use crate::number::{decimal, unsigned};
use crate::response::metadata::status_line;
use crate::stream::reading::{
    declared, ends_blank, gives_length, has_blank_line, head_text, is_head, latin1, latin1_bytes,
    law_ended_text, law_failed_text, law_length_line_declares, law_other_lines_declare_nothing,
    lemma_text_of_any_head, lemma_text_of_cut_body, lemma_text_of_malformed_length,
    lemma_text_with_body, lemma_within_head, length_line, text_from, unread_with,
};
use crate::stream::{after_read, bytes_stream, next_read, Stream};
use vstd::prelude::*;
use vstd::utf8::*;

verus! {

/// The text that `read_from_stream` gives for a stream, from `counting` on, and what is left of
/// the stream. There is none if it comes to a byte that it does not take.
pub open spec fn counted_text_from(counting: Counting, stream: Stream) -> Option<
    (Result<Seq<char>, std::io::Error>, Stream),
>
    decreases stream.len(),
{
    let read = next_read(stream);
    if read matches Some(Ok(byte)) && !accepted(counting, byte) {
        None
    } else {
        match read_progress(counting, read) {
            CountingProgress::Done(text) => Some((text, after_read(stream))),
            CountingProgress::More(counting) => if stream.len() > 0 {
                counted_text_from(counting, after_read(stream))
            } else {
                Some((Ok(counting.response), stream))
            },
        }
    }
}

/// The status code that will be read when `stream` comes behind `response`, of which no line was
/// ended.
pub open spec fn code_from(response: Seq<char>, stream: Stream) -> i32
    decreases stream.len(),
{
    if stream.len() == 0 || stream[0] is Err {
        503
    } else {
        let response = response.push(stream[0]->Ok_0 as char);
        if stream[0]->Ok_0 == 0x0a {
            status_line(response).0
        } else {
            code_from(response, stream.drop_first())
        }
    }
}

/// The same reading, but for the status code.
pub open spec fn counting_of(reading: Reading) -> Counting {
    Counting {
        response: reading.response,
        response_length: reading.response_length,
        byte_count: reading.byte_count,
        blank_line: reading.blank_line,
    }
}

/// Of a response whose status code does not say that it has no body, the reading by its length
/// alone gives the same text as the one that takes the status code into account.
pub proof fn law_readings_agree(reading: Reading, stream: Stream)
    requires
        !reading.head,
        reading.byte_count == reading.response.len(),
        reading.response_length is Some ==> reading.byte_count < reading.response_length->0,
        match reading.status_code {
            Some(code) => !(100 <= code <= 199) && code != 204 && code != 304,
            None => {
                let code = code_from(reading.response, stream);
                &&& !reading.blank_line
                &&& reading.response_length is None
                &&& !(100 <= code <= 199) && code != 204 && code != 304
            },
        },
    ensures
        counted_text_from(counting_of(reading), stream) == text_from(reading, stream),
    decreases stream.len(),
{
    if stream.len() > 0 && stream[0] is Ok {
        let byte = stream[0]->Ok_0;
        let after = with_byte(reading, byte);
        lemma_length_covers_head(after.response);
        lemma_encoded_length(after.response);
        if !crate::connection::complete(after) && crate::connection::accepted(reading, byte) {
            law_readings_agree(after, after_read(stream));
        }
    }
}

proof fn lemma_code_makes_no_difference(stream: Stream)
    ensures
        counted_text_from(unread(), stream) == text_from(unread_with(false, Some(200)), stream),
{
    // Take the status code to be one of a response with a body.
    law_readings_agree(unread_with(false, Some(200)), stream);
}

/// The reading of a response ends when its head, and as many bytes as its head gives for the
/// body, were read.
pub proof fn law_counted_text_with_body(
    status: Seq<char>,
    lines: Seq<Seq<char>>,
    body: Seq<u8>,
    rest: Stream,
)
    requires
        is_head(status, lines),
        declared(seq![status] + lines) == Some(body.len()),
        encode_utf8(head_text(status, lines)).len() + body.len() <= usize::MAX,
    ensures
        counted_text_from(
            unread(),
            bytes_stream(latin1_bytes(head_text(status, lines))) + (bytes_stream(body) + rest),
        ) == Some(
            (Ok::<Seq<char>, std::io::Error>(head_text(status, lines) + latin1(body)), rest),
        ),
{
    let stream = bytes_stream(latin1_bytes(head_text(status, lines))) + (bytes_stream(body) + rest);
    lemma_text_with_body(Some(200), status, lines, body, rest);
    lemma_code_makes_no_difference(stream);
}

/// A stream that ends before as many bytes of a body came as the head announces gives all its
/// bytes as the text.
pub proof fn law_counted_text_of_cut_body(
    status: Seq<char>,
    lines: Seq<Seq<char>>,
    length: nat,
    body: Seq<u8>,
)
    requires
        is_head(status, lines),
        declared(seq![status] + lines) == Some(length),
        encode_utf8(head_text(status, lines)).len() + length <= usize::MAX,
        body.len() < length,
    ensures
        counted_text_from(
            unread(),
            bytes_stream(latin1_bytes(head_text(status, lines)) + body),
        ) == Some(
            (
                Ok::<Seq<char>, std::io::Error>(head_text(status, lines) + latin1(body)),
                Stream::empty(),
            ),
        ),
{
    lemma_text_of_cut_body(Some(200), status, lines, length, body);
    lemma_code_makes_no_difference(bytes_stream(latin1_bytes(head_text(status, lines)) + body));
}

/// The reading of a response ends when its head, and as many bytes behind it as its one line
/// `Content-Length: ` gives in decimal digits, were read, whatever the status code is.
pub proof fn law_counted_text_of_written_length(
    status: Seq<char>,
    before: Seq<Seq<char>>,
    after: Seq<Seq<char>>,
    body: Seq<u8>,
    rest: Stream,
)
    requires
        is_head(status, before + seq![length_line(decimal(body.len()))] + after),
        forall|i: int| 0 <= i < before.len() ==> !gives_length(#[trigger] before[i]),
        forall|i: int| 0 <= i < after.len() ==> !gives_length(#[trigger] after[i]),
        !gives_length(status),
        encode_utf8(
            head_text(status, before + seq![length_line(decimal(body.len()))] + after),
        ).len() + body.len() <= usize::MAX,
    ensures
        ({
            let text = head_text(status, before + seq![length_line(decimal(body.len()))] + after);
            counted_text_from(
                unread(),
                bytes_stream(latin1_bytes(text)) + (bytes_stream(body) + rest),
            ) == Some((Ok::<Seq<char>, std::io::Error>(text + latin1(body)), rest))
        }),
{
    let line = length_line(decimal(body.len()));
    let lines = before + seq![line] + after;
    let others = seq![status] + before + after;
    assert forall|i: int| 0 <= i < others.len() implies !gives_length(#[trigger] others[i]) by {
        if 0 < i <= before.len() {
            assert(others[i] == before[i - 1]);
        } else if i > before.len() {
            assert(others[i] == after[i - before.len() - 1]);
        }
    }
    law_other_lines_declare_nothing(others);
    law_length_line_declares(seq![status] + before, body.len() as usize, Seq::empty(), after);
    assert(seq![status] + lines == seq![status] + before + seq![line] + after);
    law_counted_text_with_body(status, lines, body, rest);
}

/// The reading of a response ends when as many bytes came as its head gives for the whole, whether
/// the lines of the head end in carriage returns or not, and whatever the status code is.
pub proof fn law_counted_text_of_any_head(start: Seq<u8>, body: Seq<u8>, rest: Stream)
    requires
        !has_blank_line(start),
        ends_blank(start),
        stream_length(latin1(start.push(0x0a))) is Some,
        stream_length(latin1(start.push(0x0a)))->0 == start.len() + 1 + body.len(),
    ensures
        counted_text_from(
            unread(),
            bytes_stream(start.push(0x0a)) + (bytes_stream(body) + rest),
        ) == Some(
            (Ok::<Seq<char>, std::io::Error>(latin1(start.push(0x0a)) + latin1(body)), rest),
        ),
{
    lemma_text_of_any_head(Some(200), start, body, rest);
    lemma_code_makes_no_difference(bytes_stream(start.push(0x0a)) + (bytes_stream(body) + rest));
}

/// A stream that ends before the head of a response does gives all its bytes, and the reading takes
/// every byte of it, whatever bytes they are. An error that comes there is what the reading comes
/// to.
pub proof fn law_counted_text_of_any_cut_head(
    start: Seq<u8>,
    err: std::io::Error,
    rest: Stream,
)
    requires
        !has_blank_line(start),
    ensures
        counted_text_from(unread(), bytes_stream(start)) == Some(
            (Ok::<Seq<char>, std::io::Error>(latin1(start)), Stream::empty()),
        ),
        ({
            let failed: Stream = seq![Err(err)];
            counted_text_from(unread(), bytes_stream(start) + (failed + rest)) == Some(
                (Err::<Seq<char>, std::io::Error>(err), rest),
            )
        }),
{
    let failed: Stream = seq![Err(err)];
    let reading = unread_with(false, Some(200));
    lemma_within_head(false, Some(200), start);
    law_ended_text(reading, start);
    assert(reading.response + latin1(start) == latin1(start));
    law_failed_text(reading, start, err, rest);
    lemma_code_makes_no_difference(bytes_stream(start));
    lemma_code_makes_no_difference(bytes_stream(start) + (failed + rest));
}

/// The reading of a response comes to a byte that it does not take if the head announces the length
/// of the body wrongly, whatever the status code is.
pub proof fn law_counted_text_of_malformed_length(
    status: Seq<char>,
    before: Seq<Seq<char>>,
    text: Seq<char>,
    after: Seq<Seq<char>>,
    rest: Stream,
)
    requires
        is_head(status, before + seq![length_line(text)] + after),
        unsigned(text, 10, usize::MAX as nat) is None,
    ensures
        counted_text_from(
            unread(),
            bytes_stream(latin1_bytes(head_text(status, before + seq![length_line(text)] + after)))
                + rest,
        ) is None,
{
    let head = head_text(status, before + seq![length_line(text)] + after);
    lemma_text_of_malformed_length(Some(200), status, before, text, after, rest);
    lemma_code_makes_no_difference(bytes_stream(latin1_bytes(head)) + rest);
}

/// Wherever the stream ends, what was read is the text. Wherever an error comes, it is what the
/// reading comes to.
pub proof fn law_counted_text_ends(counting: Counting, err: std::io::Error, rest: Stream)
    ensures
        counted_text_from(counting, Stream::empty()) == Some(
            (Ok::<Seq<char>, std::io::Error>(counting.response), Stream::empty()),
        ),
        ({
            let failed: Stream = seq![Err(err)];
            counted_text_from(counting, failed + rest) == Some(
                (Err::<Seq<char>, std::io::Error>(err), rest),
            )
        }),
{
    let failed: Stream = seq![Err(err)];
    assert((failed + rest)[0] == Err::<u8, std::io::Error>(err));
    assert(after_read(failed + rest) == rest);
}

} // verus!
