//! What comes out when the reading of a response as a text is driven by a whole stream.

use crate::connection::{
    accepted, bodiless, complete, lemma_encoded_length, lemma_encoded_parts,
    lemma_length_covers_head, lines, lines_length, read_progress, response_length, starts_with,
    status_code, stream_length, unread, with_byte, ReadProgress, Reading,
};
use crate::number::{decimal, law_decimal_is_read_back, unsigned};
use crate::response::metadata::status_line;
use crate::stream::{after_read, bytes_stream, next_read, Stream};
use crate::text::{lemma_position, lemma_position_characters, position};
use vstd::prelude::*;
use vstd::utf8::*;

verus! {

/// The text that `read_from_stream` gives for a stream, from `reading` on, and what is left of
/// the stream. There is none if it comes to a byte that it does not take.
pub open spec fn text_from(reading: Reading, stream: Stream) -> Option<
    (Result<Seq<char>, std::io::Error>, Stream),
>
    decreases stream.len(),
{
    let read = next_read(stream);
    if read matches Some(Ok(byte)) && !accepted(reading, byte) {
        None
    } else {
        match read_progress(reading, read) {
            ReadProgress::Done(text) => Some((text, after_read(stream))),
            ReadProgress::More(reading) => if stream.len() > 0 {
                text_from(reading, after_read(stream))
            } else {
                Some((Ok(reading.response), stream))
            },
        }
    }
}

/// The text of some bytes, each as the character of that code.
pub open spec fn latin1(bytes: Seq<u8>) -> Seq<char> {
    bytes.map_values(|byte: u8| byte as char)
}

/// Whether each character of a text has the code of a byte.
pub open spec fn is_latin1(text: Seq<char>) -> bool {
    forall|i: int| 0 <= i < text.len() ==> text[i] <= '\u{ff}'
}

/// The bytes of a text, each the code of a character.
pub open spec fn latin1_bytes(text: Seq<char>) -> Seq<u8> {
    text.map_values(|c: char| c as u8)
}

proof fn lemma_latin1_character(c: char)
    requires
        c <= '\u{ff}',
    ensures
        (c as u8) as char == c,
{
}

proof fn lemma_latin1(text: Seq<char>)
    requires
        is_latin1(text),
    ensures
        latin1(latin1_bytes(text)) == text,
{
    let bytes = latin1_bytes(text);
    assert forall|i: int| 0 <= i < text.len() implies bytes[i] as char == text[i] by {
        lemma_latin1_character(text[i]);
    }
    assert(latin1(bytes) =~= text);
}

/// What was read of a response after some more bytes.
pub open spec fn with_bytes(reading: Reading, bytes: Seq<u8>) -> Reading
    decreases bytes.len(),
{
    if bytes.len() == 0 {
        reading
    } else {
        with_bytes(with_byte(reading, bytes[0]), bytes.drop_first())
    }
}

/// Whether the reading of a response takes some more bytes, and wants more behind each.
pub open spec fn goes_on(reading: Reading, bytes: Seq<u8>) -> bool
    decreases bytes.len(),
{
    bytes.len() > 0 ==> accepted(reading, bytes[0]) && !complete(with_byte(reading, bytes[0]))
        && goes_on(with_byte(reading, bytes[0]), bytes.drop_first())
}

proof fn lemma_bytes_in_two_parts(reading: Reading, first: Seq<u8>, second: Seq<u8>)
    ensures
        with_bytes(reading, first + second) == with_bytes(with_bytes(reading, first), second),
        goes_on(reading, first + second) <==> goes_on(reading, first) && goes_on(
            with_bytes(reading, first),
            second,
        ),
    decreases first.len(),
{
    let both = first + second;
    if first.len() == 0 {
        assert(both == second);
    } else {
        assert(both.drop_first() == first.drop_first() + second);
        lemma_bytes_in_two_parts(with_byte(reading, first[0]), first.drop_first(), second);
    }
}

proof fn lemma_text_goes_on(reading: Reading, bytes: Seq<u8>, rest: Stream)
    requires
        goes_on(reading, bytes),
    ensures
        text_from(reading, bytes_stream(bytes) + rest) == text_from(
            with_bytes(reading, bytes),
            rest,
        ),
    decreases bytes.len(),
{
    let stream = bytes_stream(bytes) + rest;
    if bytes.len() == 0 {
        assert(stream == rest);
    } else {
        let others = bytes.drop_first();
        assert(stream[0] == Ok::<u8, std::io::Error>(bytes[0]));
        assert(after_read(stream) == bytes_stream(others) + rest);
        lemma_text_goes_on(with_byte(reading, bytes[0]), others, rest);
    }
}

proof fn lemma_text_ends(reading: Reading, byte: u8, rest: Stream)
    requires
        accepted(reading, byte),
        complete(with_byte(reading, byte)),
    ensures
        text_from(reading, bytes_stream(seq![byte]) + rest) == Some(
            (Ok::<Seq<char>, std::io::Error>(reading.response.push(byte as char)), rest),
        ),
{
    let stream = bytes_stream(seq![byte]) + rest;
    assert(stream[0] == Ok::<u8, std::io::Error>(byte));
    assert(after_read(stream) == rest);
}

/// The text of a response is what was read of it, byte for byte, whatever the stream holds.
pub proof fn law_text_is_what_was_read(reading: Reading, bytes: Seq<u8>)
    ensures
        text_from(reading, bytes_stream(bytes)) matches Some((text, rest)) ==> {
            &&& rest.len() <= bytes.len()
            &&& rest == bytes_stream(bytes.skip(bytes.len() - rest.len()))
            &&& text == Ok::<Seq<char>, std::io::Error>(
                reading.response + latin1(bytes.take(bytes.len() - rest.len())),
            )
        },
    decreases bytes.len(),
{
    let stream = bytes_stream(bytes);
    if bytes.len() == 0 {
        assert(bytes.skip(0) == bytes);
        assert(reading.response + latin1(bytes.take(0)) == reading.response);
    } else {
        let others = bytes.drop_first();
        let after = with_byte(reading, bytes[0]);
        assert(stream[0] == Ok::<u8, std::io::Error>(bytes[0]));
        assert(after_read(stream) == bytes_stream(others));
        law_text_is_what_was_read(after, others);
        if let Some((_, rest)) = text_from(reading, stream) {
            if complete(after) {
                assert(bytes.skip(1) == others);
                assert(after.response == reading.response + latin1(bytes.take(1)));
            } else {
                let read = others.len() - rest.len();
                assert(others.skip(read) == bytes.skip(read + 1));
                assert(after.response + latin1(others.take(read)) == reading.response + latin1(
                    bytes.take(read + 1),
                ));
            }
        }
    }
}

/// An error that comes while more of a response is wanted is what its reading comes to.
pub proof fn law_failed_text(reading: Reading, bytes: Seq<u8>, err: std::io::Error, rest: Stream)
    requires
        goes_on(reading, bytes),
    ensures
        ({
            let failed: Stream = seq![Err(err)];
            text_from(reading, bytes_stream(bytes) + (failed + rest)) == Some(
                (Err::<Seq<char>, std::io::Error>(err), rest),
            )
        }),
{
    let failed: Stream = seq![Err(err)];
    lemma_text_goes_on(reading, bytes, failed + rest);
    assert((failed + rest)[0] == Err::<u8, std::io::Error>(err));
    assert(after_read(failed + rest) == rest);
}

proof fn lemma_bytes_are_text(reading: Reading, bytes: Seq<u8>)
    ensures
        with_bytes(reading, bytes).response == reading.response + latin1(bytes),
    decreases bytes.len(),
{
    if bytes.len() == 0 {
        assert(reading.response + latin1(bytes) == reading.response);
    } else {
        let others = bytes.drop_first();
        lemma_bytes_are_text(with_byte(reading, bytes[0]), others);
        assert(reading.response.push(bytes[0] as char) + latin1(others) == reading.response
            + latin1(bytes));
    }
}

/// A stream that ends while more of a response is wanted gives all its bytes as the text.
pub proof fn law_ended_text(reading: Reading, bytes: Seq<u8>)
    requires
        goes_on(reading, bytes),
    ensures
        text_from(reading, bytes_stream(bytes)) == Some(
            (
                Ok::<Seq<char>, std::io::Error>(reading.response + latin1(bytes)),
                Stream::empty(),
            ),
        ),
{
    let rest = Stream::empty();
    assert(bytes_stream(bytes) + rest == bytes_stream(bytes));
    lemma_text_goes_on(reading, bytes, rest);
    lemma_bytes_are_text(reading, bytes);
}

/// Whether some bytes are carriage returns alone.
pub open spec fn only_returns(bytes: Seq<u8>) -> bool {
    forall|i: int| 0 <= i < bytes.len() ==> bytes[i] == 0x0d
}

/// Whether a text can stand as a line in a response that is read as a text.
pub open spec fn is_line(line: Seq<char>) -> bool {
    is_latin1(line) && !line.contains('\n')
}

/// Whether a line looks empty: it is carriage returns alone.
pub open spec fn is_blank(line: Seq<char>) -> bool {
    forall|i: int| 0 <= i < line.len() ==> line[i] == '\r'
}

proof fn lemma_part_of_line(reading: Reading, bytes: Seq<u8>)
    requires
        !bytes.contains(0x0a),
        reading.response_length is None,
    ensures
        goes_on(reading, bytes),
        with_bytes(reading, bytes) == (Reading {
            response: reading.response + latin1(bytes),
            byte_count: reading.byte_count + bytes.len(),
            blank_line: reading.blank_line && only_returns(bytes),
            ..reading
        }),
    decreases bytes.len(),
{
    if bytes.len() == 0 {
        assert(reading.response + latin1(bytes) == reading.response);
    } else {
        let others = bytes.drop_first();
        assert(bytes[0] != 0x0a);
        assert(!others.contains(0x0a)) by {
            if others.contains(0x0a) {
                let i = choose|i: int| 0 <= i < others.len() && others[i] == 0x0a;
                assert(bytes[i + 1] == 0x0a);
            }
        }
        lemma_part_of_line(with_byte(reading, bytes[0]), others);
        assert(reading.response.push(bytes[0] as char) + latin1(others) == reading.response
            + latin1(bytes));
        assert(only_returns(bytes) <==> bytes[0] == 0x0d && only_returns(others)) by {
            if bytes[0] == 0x0d && only_returns(others) {
                assert forall|i: int| 0 <= i < bytes.len() implies bytes[i] == 0x0d by {
                    if i > 0 {
                        assert(bytes[i] == others[i - 1]);
                    }
                }
            }
            if only_returns(bytes) {
                assert forall|i: int| 0 <= i < others.len() implies others[i] == 0x0d by {
                    assert(others[i] == bytes[i + 1]);
                }
            }
        }
    }
}

/// Reading a line leaves the reading open where a line starts.
proof fn lemma_line(reading: Reading, line: Seq<char>)
    requires
        is_line(line),
        reading.response_length is None,
        reading.blank_line ==> !is_blank(line),
    ensures
        goes_on(reading, latin1_bytes(line + seq!['\r', '\n'])),
        with_bytes(reading, latin1_bytes(line + seq!['\r', '\n'])) == (Reading {
            response: reading.response + line + seq!['\r', '\n'],
            byte_count: reading.byte_count + line.len() + 2,
            blank_line: true,
            status_code: Some(
                status_code(reading, reading.response + line + seq!['\r', '\n']),
            ),
            ..reading
        }),
{
    let bytes = latin1_bytes(line + seq!['\r', '\n']);
    let start = latin1_bytes(line + seq!['\r']);
    assert(bytes == start + seq![0x0a]);
    lemma_latin1(line + seq!['\r']);
    assert forall|i: int| 0 <= i < line.len() implies #[trigger] start[i] as char == line[i] by {
        assert(latin1(start)[i] == (line + seq!['\r'])[i]);
    }
    assert(!start.contains(0x0a)) by {
        if start.contains(0x0a) {
            let i = choose|i: int| 0 <= i < start.len() && start[i] == 0x0a;
            assert(line[i] == '\n');
        }
    }
    if only_returns(start) {
        assert forall|i: int| 0 <= i < line.len() implies line[i] == '\r' by {
            assert(start[i] == 0x0d);
        }
    }
    lemma_part_of_line(reading, start);
    lemma_bytes_in_two_parts(reading, start, seq![0x0a]);
    reveal_with_fuel(with_bytes, 2);
    reveal_with_fuel(goes_on, 2);
    let ended = with_bytes(reading, start);
    assert(ended.response.push('\n') == reading.response + line + seq!['\r', '\n']);
    assert(seq![0x0au8].drop_first() == Seq::<u8>::empty());
}

/// Some lines as a text, and an empty line behind them.
pub open spec fn lines_text(lines: Seq<Seq<char>>) -> Seq<char>
    decreases lines.len(),
{
    if lines.len() == 0 {
        seq!['\r', '\n']
    } else {
        lines[0] + seq!['\r', '\n'] + lines_text(lines.drop_first())
    }
}

/// A head as a text.
pub open spec fn head_text(status: Seq<char>, lines: Seq<Seq<char>>) -> Seq<char> {
    status + seq!['\r', '\n'] + lines_text(lines)
}

/// Whether a status line and header lines make a head: none of them is broken, and no header line
/// looks like the end of the head.
pub open spec fn is_head(status: Seq<char>, lines: Seq<Seq<char>>) -> bool {
    is_line(status) && are_header_lines(lines)
}

/// Whether some lines can stand in a head: none of them is broken, and none looks like the end of
/// the head.
pub open spec fn are_header_lines(lines: Seq<Seq<char>>) -> bool {
    forall|i: int| 0 <= i < lines.len() ==> is_line(#[trigger] lines[i]) && !is_blank(lines[i])
}

proof fn lemma_header_lines(lines: Seq<Seq<char>>)
    requires
        are_header_lines(lines),
        lines.len() > 0,
    ensures
        is_line(lines[0]),
        !is_blank(lines[0]),
        are_header_lines(lines.drop_first()),
{
    assert(is_line(lines[0]));
    let others = lines.drop_first();
    assert forall|i: int| 0 <= i < others.len() implies is_line(#[trigger] others[i]) && !is_blank(
        others[i],
    ) by {
        assert(others[i] == lines[i + 1]);
    }
}

proof fn lemma_lines_text(lines: Seq<Seq<char>>)
    requires
        are_header_lines(lines),
    ensures
        lines_text(lines).len() >= 2,
        lines_text(lines).last() == '\n',
        is_latin1(lines_text(lines)),
    decreases lines.len(),
{
    if lines.len() > 0 {
        lemma_header_lines(lines);
        lemma_lines_text(lines.drop_first());
    }
}

proof fn lemma_lines(reading: Reading, lines: Seq<Seq<char>>)
    requires
        are_header_lines(lines),
        reading.response_length is None,
        reading.blank_line,
        reading.status_code is Some,
    ensures
        goes_on(reading, latin1_bytes(lines_text(lines).drop_last())),
        with_bytes(reading, latin1_bytes(lines_text(lines).drop_last())) == (Reading {
            response: reading.response + lines_text(lines).drop_last(),
            byte_count: (reading.byte_count + lines_text(lines).len() - 1) as nat,
            ..reading
        }),
    decreases lines.len(),
{
    lemma_lines_text(lines);
    let bytes = latin1_bytes(lines_text(lines).drop_last());
    if lines.len() == 0 {
        assert(bytes == seq![0x0du8]);
        lemma_part_of_line(reading, bytes);
        assert(latin1(bytes) == lines_text(lines).drop_last());
    } else {
        let others = lines.drop_first();
        let first = latin1_bytes(lines[0] + seq!['\r', '\n']);
        let last = latin1_bytes(lines_text(others).drop_last());
        lemma_header_lines(lines);
        lemma_lines_text(others);
        assert(bytes == first + last);
        lemma_line(reading, lines[0]);
        let after = with_bytes(reading, first);
        lemma_lines(after, others);
        lemma_bytes_in_two_parts(reading, first, last);
        assert(after.response + lines_text(others).drop_last() == reading.response + lines_text(
            lines,
        ).drop_last());
    }
}

/// Before anything was read of a response, with the status code that it is taken to have, if
/// that is not left to the status line.
pub open spec fn unread_with(to_head: bool, code: Option<i32>) -> Reading {
    Reading { status_code: code, ..unread(to_head) }
}

/// What was read of a response before the last byte of its head.
pub open spec fn before_end_of_head(
    to_head: bool,
    code: Option<i32>,
    status: Seq<char>,
    lines: Seq<Seq<char>>,
) -> Reading {
    Reading {
        head: to_head,
        response: head_text(status, lines).drop_last(),
        response_length: None,
        byte_count: (head_text(status, lines).len() - 1) as nat,
        blank_line: true,
        status_code: Some(
            match code {
                Some(code) => code,
                None => status_line(status).0,
            },
        ),
    }
}

proof fn lemma_head(to_head: bool, code: Option<i32>, status: Seq<char>, lines: Seq<Seq<char>>)
    requires
        is_head(status, lines),
    ensures
        goes_on(unread_with(to_head, code), latin1_bytes(head_text(status, lines).drop_last())),
        with_bytes(unread_with(to_head, code), latin1_bytes(head_text(status, lines).drop_last()))
            == before_end_of_head(to_head, code, status, lines),
        head_text(status, lines).len() > 0,
        head_text(status, lines).last() == '\n',
        is_latin1(head_text(status, lines)),
        latin1_bytes(head_text(status, lines)) == latin1_bytes(head_text(status, lines).drop_last())
            + seq![0x0a],
{
    let start = latin1_bytes(status + seq!['\r', '\n']);
    let last = latin1_bytes(lines_text(lines).drop_last());
    lemma_lines_text(lines);
    assert(latin1_bytes(head_text(status, lines).drop_last()) == start + last);
    law_code_ignores_end_of_line(status);
    let reading = unread_with(to_head, code);
    lemma_line(reading, status);
    let after = with_bytes(reading, start);
    assert(Seq::<char>::empty() + status + seq!['\r', '\n'] == status + seq!['\r', '\n']);
    lemma_lines(after, lines);
    lemma_bytes_in_two_parts(reading, start, last);
    assert(after.response + lines_text(lines).drop_last() == head_text(status, lines).drop_last());
}

/// The end of a status line makes no difference to its code.
pub proof fn law_code_ignores_end_of_line(status: Seq<char>)
    ensures
        status_line(status + seq!['\r', '\n']).0 == status_line(status).0,
{
    let end = seq!['\r', '\n'];
    let line = status + end;
    lemma_position_characters(status, ' ');
    let first = position(status, ' ');
    if first < status.len() {
        lemma_position(line, ' ', first);
        let after = status.skip(first + 1);
        assert(line.skip(first + 1) == after + end);
        lemma_position_characters(after, ' ');
        let second = position(after, ' ');
        if second < after.len() {
            lemma_position(after + end, ' ', second);
            assert((after + end).take(second) == after.take(second));
        } else {
            lemma_position(after + end, ' ', (after + end).len() as int);
        }
    } else {
        lemma_position(line, ' ', line.len() as int);
    }
}

/// The reading of a response that has no body, because it is to a `HEAD` request or its status
/// code is from 100 to 199, 204 or 304, ends with its head.
pub proof fn law_text_without_body(
    to_head: bool,
    status: Seq<char>,
    lines: Seq<Seq<char>>,
    rest: Stream,
)
    requires
        is_head(status, lines),
        to_head || 100 <= status_line(status).0 <= 199 || status_line(status).0 == 204
            || status_line(status).0 == 304,
        head_text(status, lines).len() <= usize::MAX,
    ensures
        text_from(
            unread(to_head),
            bytes_stream(latin1_bytes(head_text(status, lines))) + rest,
        ) == Some((Ok::<Seq<char>, std::io::Error>(head_text(status, lines)), rest)),
{
    let text = head_text(status, lines);
    let start = latin1_bytes(text.drop_last());
    let before = before_end_of_head(to_head, None, status, lines);
    lemma_head(to_head, None, status, lines);
    let behind = bytes_stream(seq![0x0a]) + rest;
    assert(bytes_stream(latin1_bytes(text)) + rest == bytes_stream(start) + behind);
    lemma_text_goes_on(unread(to_head), start, behind);
    assert(before.response.push('\n') == text);
    lemma_text_ends(before, 0x0a, rest);
}

/// A stream that ends before the head of a response does gives all its bytes as the text.
pub proof fn law_text_of_cut_head(
    to_head: bool,
    status: Seq<char>,
    lines: Seq<Seq<char>>,
    count: int,
)
    requires
        is_head(status, lines),
        0 <= count < head_text(status, lines).len(),
    ensures
        text_from(
            unread(to_head),
            bytes_stream(latin1_bytes(head_text(status, lines).take(count))),
        ) == Some(
            (Ok::<Seq<char>, std::io::Error>(head_text(status, lines).take(count)), Stream::empty()),
        ),
{
    let text = head_text(status, lines);
    let reading = unread(to_head);
    lemma_head(to_head, None, status, lines);
    let bytes = latin1_bytes(text.take(count));
    let others = latin1_bytes(text.drop_last().skip(count));
    assert(latin1_bytes(text.drop_last()) == bytes + others);
    lemma_bytes_in_two_parts(reading, bytes, others);
    law_ended_text(reading, bytes);
    lemma_latin1(text.take(count));
    assert(reading.response + text.take(count) == text.take(count));
}

/// The length of the body that a line of a head gives; none counts as zero.
pub open spec fn declared_in(line: Seq<char>) -> Option<nat> {
    if starts_with(line, "Content-Length: "@) {
        unsigned(line.skip("Content-Length: "@.len() as int), 10, usize::MAX as nat)
    } else {
        Some(0)
    }
}

/// The length of the body that some lines of a head give together.
pub open spec fn declared(lines: Seq<Seq<char>>) -> Option<nat>
    decreases lines.len(),
{
    if lines.len() == 0 {
        Some(0)
    } else {
        match (declared_in(lines[0]), declared(lines.drop_first())) {
            (Some(first), Some(rest)) => Some(first + rest),
            _ => None,
        }
    }
}

/// Whether a line starts with these characters, so that it gives the length of the body.
pub open spec fn gives_length(line: Seq<char>) -> bool {
    line.len() >= 16 && line.take(16) == "Content-Length: "@
}

/// The line that gives `text` as the length of the body.
pub open spec fn length_line(text: Seq<char>) -> Seq<char> {
    "Content-Length: "@ + text
}

proof fn lemma_declared_in(line: Seq<char>, text: Seq<char>)
    ensures
        !gives_length(line) ==> declared_in(line) == Some(0nat),
        declared_in(length_line(text)) == unsigned(text, 10, usize::MAX as nat),
{
    reveal_strlit("Content-Length: ");
    assert(length_line(text).take(16) == "Content-Length: "@);
    assert(length_line(text).skip(16) == text);
}

proof fn lemma_declared_parts(first: Seq<Seq<char>>, second: Seq<Seq<char>>)
    ensures
        declared(first + second) == match (declared(first), declared(second)) {
            (Some(one), Some(other)) => Some(one + other),
            _ => None,
        },
    decreases first.len(),
{
    let both = first + second;
    if first.len() == 0 {
        assert(both == second);
    } else {
        assert(both.drop_first() == first.drop_first() + second);
        lemma_declared_parts(first.drop_first(), second);
    }
}

proof fn lemma_declared_one(line: Seq<char>)
    ensures
        declared(seq![line]) == declared_in(line),
{
    assert(seq![line].drop_first() == Seq::<Seq<char>>::empty());
    assert(declared(seq![line].drop_first()) == Some(0nat));
}

/// Lines that do not start with `Content-Length: `, just so, announce no bytes.
pub proof fn law_other_lines_declare_nothing(lines: Seq<Seq<char>>)
    requires
        forall|i: int| 0 <= i < lines.len() ==> !gives_length(#[trigger] lines[i]),
    ensures
        declared(lines) == Some(0nat),
    decreases lines.len(),
{
    if lines.len() > 0 {
        let others = lines.drop_first();
        assert(!gives_length(lines[0]));
        lemma_declared_in(lines[0], Seq::empty());
        assert forall|i: int| 0 <= i < others.len() implies !gives_length(#[trigger] others[i]) by {
            assert(others[i] == lines[i + 1]);
        }
        law_other_lines_declare_nothing(others);
    }
}

/// A line `Content-Length: ` with a number in decimal digits announces that many bytes more than
/// the other lines do. With anything but a number, nothing is announced.
pub proof fn law_length_line_declares(
    before: Seq<Seq<char>>,
    n: usize,
    text: Seq<char>,
    after: Seq<Seq<char>>,
)
    ensures
        declared(before + seq![length_line(decimal(n as nat))] + after) == match declared(
            before + after,
        ) {
            Some(others) => Some(others + n as nat),
            None => None,
        },
        unsigned(text, 10, usize::MAX as nat) is None ==> declared(
            before + seq![length_line(text)] + after,
        ) is None,
{
    law_decimal_is_read_back(n as nat, usize::MAX as nat);
    lemma_declared_parts(before, after);
    let line = length_line(decimal(n as nat));
    lemma_declared_in(line, decimal(n as nat));
    lemma_declared_one(line);
    lemma_declared_parts(before + seq![line], after);
    lemma_declared_parts(before, seq![line]);
    let other = length_line(text);
    lemma_declared_in(other, text);
    lemma_declared_one(other);
    lemma_declared_parts(before + seq![other], after);
    lemma_declared_parts(before, seq![other]);
}

/// A text is split into lines at its newlines. A carriage return before a newline is not of the
/// line. What stands behind the last newline is a line too, unless it is empty.
pub proof fn law_lines_of_text(line: Seq<char>, rest: Seq<char>)
    requires
        !line.contains('\n'),
    ensures
        lines(line + seq!['\r', '\n'] + rest) == seq![line] + lines(rest),
        line.len() == 0 || line.last() != '\r' ==> lines(line + seq!['\n'] + rest) == seq![line]
            + lines(rest),
        line.len() > 0 ==> lines(line) == seq![line],
        lines(Seq::empty()) == Seq::<Seq<char>>::empty(),
{
    lemma_first_of_lines(line, rest);
    let text = line + seq!['\n'] + rest;
    assert forall|i: int| 0 <= i < line.len() implies text[i] != '\n' by {
        assert(text[i] == line[i]);
    }
    lemma_position(text, '\n', line.len() as int);
    assert(text.take(line.len() as int) == line);
    assert(text.skip(line.len() as int + 1) == rest);
    lemma_position(line, '\n', line.len() as int);
}

/// Each line of a text adds its own length, that of its end, and the length of the body that it
/// announces, to the length of the response.
pub proof fn law_length_of_lines(first: Seq<char>, n: usize, text: Seq<char>, rest: Seq<Seq<char>>)
    ensures
        lines_length(Seq::empty()) == Some(0nat),
        !gives_length(first) ==> lines_length(seq![first] + rest) == match lines_length(rest) {
            Some(others) => Some(encode_utf8(first).len() + 2 + others),
            None => None,
        },
        ({
            let line = length_line(decimal(n as nat));
            lines_length(seq![line] + rest) == match lines_length(rest) {
                Some(others) => Some(encode_utf8(line).len() + 2 + n as nat + others),
                None => None,
            }
        }),
        unsigned(text, 10, usize::MAX as nat) is None ==> lines_length(
            seq![length_line(text)] + rest,
        ) is None,
{
    law_decimal_is_read_back(n as nat, usize::MAX as nat);
    let line = length_line(decimal(n as nat));
    lemma_declared_in(first, decimal(n as nat));
    lemma_declared_in(first, text);
    assert((seq![first] + rest)[0] == first);
    assert((seq![first] + rest).drop_first() == rest);
    assert((seq![line] + rest)[0] == line);
    assert((seq![line] + rest).drop_first() == rest);
    let other = length_line(text);
    assert((seq![other] + rest)[0] == other);
    assert((seq![other] + rest).drop_first() == rest);
}

/// The length of a response is what all lines of the text add to it, if a `usize` holds that. In
/// the stream, where each character is one byte, it is less by what the text takes beyond that.
pub proof fn law_length_of_text(text: Seq<char>)
    ensures
        match lines_length(lines(text)) {
            Some(length) => if length <= usize::MAX {
                &&& response_length(text) == Some(length as usize)
                &&& stream_length(text) is Some
                &&& stream_length(text)->0 + encode_utf8(text).len() == length + text.len()
            } else {
                response_length(text) is None && stream_length(text) is None
            },
            None => response_length(text) is None && stream_length(text) is None,
        },
{
    lemma_length_covers_head(text);
    lemma_encoded_length(text);
}

proof fn lemma_first_of_lines(line: Seq<char>, rest: Seq<char>)
    requires
        !line.contains('\n'),
    ensures
        lines(line + seq!['\r', '\n'] + rest) == seq![line] + lines(rest),
{
    let text = line + seq!['\r', '\n'] + rest;
    assert forall|i: int| 0 <= i < line.len() + 1 implies text[i] != '\n' by {
        if i < line.len() {
            assert(text[i] == line[i]);
        }
    }
    lemma_position(text, '\n', line.len() as int + 1);
    assert(text.take(line.len() as int + 1) == line + seq!['\r']);
    assert((line + seq!['\r']).drop_last() == line);
    assert(text.skip(line.len() as int + 2) == rest);
}

proof fn lemma_first_length(line: Seq<char>, rest: Seq<char>)
    requires
        !line.contains('\n'),
    ensures
        lines_length(lines(line + seq!['\r', '\n'] + rest)) == match (
            declared_in(line),
            lines_length(lines(rest)),
        ) {
            (Some(own), Some(others)) => Some(encode_utf8(line).len() + 2 + own + others),
            _ => None,
        },
        encode_utf8(line + seq!['\r', '\n'] + rest).len() == encode_utf8(line).len() + 2
            + encode_utf8(rest).len(),
{
    lemma_first_of_lines(line, rest);
    let all = seq![line] + lines(rest);
    assert(all[0] == line);
    assert(all.drop_first() == lines(rest));
    let end = seq!['\r', '\n'];
    is_ascii_chars_encode_utf8(end);
    lemma_encoded_parts(line + end, rest);
    lemma_encoded_parts(line, end);
}

proof fn lemma_lines_text_length(rest: Seq<Seq<char>>)
    requires
        are_header_lines(rest),
    ensures
        lines_length(lines(lines_text(rest))) == match declared(rest) {
            Some(length) => Some(encode_utf8(lines_text(rest)).len() + length),
            None => None,
        },
    decreases rest.len(),
{
    if rest.len() == 0 {
        let empty = Seq::<char>::empty();
        reveal_strlit("Content-Length: ");
        lemma_first_length(empty, empty);
        assert(empty + seq!['\r', '\n'] + empty == lines_text(rest));
        assert(lines_length(lines(empty)) == Some(0nat));
    } else {
        let others = rest.drop_first();
        lemma_header_lines(rest);
        lemma_lines_text_length(others);
        lemma_first_length(rest[0], lines_text(others));
    }
}

/// The length that a head gives a response is that of the head itself, as it is in the stream, and
/// of the body that its lines announce. It is not known if the lines announce that wrongly, or if
/// it is too large for the head to be held as a text.
pub proof fn law_length_of_response(status: Seq<char>, lines: Seq<Seq<char>>)
    requires
        is_head(status, lines),
    ensures
        stream_length(head_text(status, lines)) == match declared(seq![status] + lines) {
            Some(length) => if encode_utf8(head_text(status, lines)).len() + length <= usize::MAX {
                Some((head_text(status, lines).len() + length) as usize)
            } else {
                None
            },
            None => None,
        },
{
    lemma_lines_text_length(lines);
    lemma_first_length(status, lines_text(lines));
    lemma_encoded_length(head_text(status, lines));
    let all = seq![status] + lines;
    assert(all[0] == status);
    assert(all.drop_first() == lines);
}

proof fn lemma_body_goes_on(reading: Reading, bytes: Seq<u8>)
    requires
        reading.response_length is Some,
        reading.status_code is Some,
        !bodiless(reading.head, reading.status_code->0),
        reading.byte_count + bytes.len() < reading.response_length->0,
    ensures
        goes_on(reading, bytes),
    decreases bytes.len(),
{
    if bytes.len() > 0 {
        lemma_body_goes_on(with_byte(reading, bytes[0]), bytes.drop_first());
    }
}

proof fn lemma_body(reading: Reading, bytes: Seq<u8>, rest: Stream)
    requires
        reading.response_length is Some,
        reading.status_code is Some,
        !bodiless(reading.head, reading.status_code->0),
        0 < bytes.len(),
        reading.byte_count + bytes.len() == reading.response_length->0,
    ensures
        text_from(reading, bytes_stream(bytes) + rest) == Some(
            (Ok::<Seq<char>, std::io::Error>(reading.response + latin1(bytes)), rest),
        ),
    decreases bytes.len(),
{
    let stream = bytes_stream(bytes) + rest;
    let others = bytes.drop_first();
    let after = with_byte(reading, bytes[0]);
    assert(stream[0] == Ok::<u8, std::io::Error>(bytes[0]));
    assert(after_read(stream) == bytes_stream(others) + rest);
    assert(after.response + latin1(others) == reading.response + latin1(bytes));
    if bytes.len() == 1 {
        assert(bytes_stream(others) + rest == rest);
        assert(after.response + latin1(others) == after.response);
    } else {
        lemma_body(after, others, rest);
    }
}

/// Whether a response of this status line is taken to have a body, by `code` if that is given,
/// and else by the status line.
pub open spec fn has_body(code: Option<i32>, status: Seq<char>) -> bool {
    match code {
        Some(code) => !bodiless(false, code),
        None => !bodiless(false, status_line(status).0),
    }
}

/// The reading of a response that is taken to have a body ends when its head, and as many bytes
/// as its head gives for the body, were read.
pub proof fn lemma_text_with_body(
    code: Option<i32>,
    status: Seq<char>,
    lines: Seq<Seq<char>>,
    body: Seq<u8>,
    rest: Stream,
)
    requires
        is_head(status, lines),
        has_body(code, status),
        declared(seq![status] + lines) == Some(body.len()),
        encode_utf8(head_text(status, lines)).len() + body.len() <= usize::MAX,
    ensures
        text_from(
            unread_with(false, code),
            bytes_stream(latin1_bytes(head_text(status, lines))) + (bytes_stream(body) + rest),
        ) == Some(
            (Ok::<Seq<char>, std::io::Error>(head_text(status, lines) + latin1(body)), rest),
        ),
{
    let text = head_text(status, lines);
    let start = latin1_bytes(text.drop_last());
    let before = before_end_of_head(false, code, status, lines);
    lemma_head(false, code, status, lines);
    law_length_of_response(status, lines);
    lemma_encoded_length(text);
    let behind = bytes_stream(seq![0x0a]) + (bytes_stream(body) + rest);
    assert(bytes_stream(latin1_bytes(text)) + (bytes_stream(body) + rest) == bytes_stream(start)
        + behind);
    lemma_text_goes_on(unread_with(false, code), start, behind);
    assert(before.response.push('\n') == text);
    if body.len() == 0 {
        lemma_text_ends(before, 0x0a, bytes_stream(body) + rest);
        assert(bytes_stream(body) + rest == rest);
        assert(text + latin1(body) == text);
    } else {
        let after = with_byte(before, 0x0a);
        assert(behind[0] == Ok::<u8, std::io::Error>(0x0a));
        assert(after_read(behind) == bytes_stream(body) + rest);
        lemma_body(after, body, rest);
    }
}

/// The reading of a response that is taken to have a body gives all bytes of a stream that ends
/// before as many bytes of the body came as the head announces.
pub proof fn lemma_text_of_cut_body(
    code: Option<i32>,
    status: Seq<char>,
    lines: Seq<Seq<char>>,
    length: nat,
    body: Seq<u8>,
)
    requires
        is_head(status, lines),
        has_body(code, status),
        declared(seq![status] + lines) == Some(length),
        encode_utf8(head_text(status, lines)).len() + length <= usize::MAX,
        body.len() < length,
    ensures
        text_from(
            unread_with(false, code),
            bytes_stream(latin1_bytes(head_text(status, lines)) + body),
        ) == Some(
            (
                Ok::<Seq<char>, std::io::Error>(head_text(status, lines) + latin1(body)),
                Stream::empty(),
            ),
        ),
{
    let text = head_text(status, lines);
    let reading = unread_with(false, code);
    let start = latin1_bytes(text.drop_last());
    let before = before_end_of_head(false, code, status, lines);
    let behind = seq![0x0a] + body;
    lemma_head(false, code, status, lines);
    law_length_of_response(status, lines);
    lemma_encoded_length(text);
    assert(before.response.push('\n') == text);
    assert(behind.drop_first() == body);
    lemma_body_goes_on(with_byte(before, 0x0a), body);
    assert(goes_on(before, behind));
    lemma_bytes_in_two_parts(reading, start, behind);
    let whole = latin1_bytes(text) + body;
    assert(whole == start + behind);
    law_ended_text(reading, whole);
    lemma_latin1(text);
    assert(reading.response + latin1(whole) == latin1(latin1_bytes(text)) + latin1(body));
}

/// The reading of a response that has a body, because it is not to a `HEAD` request and its status
/// code is not from 100 to 199, 204 or 304, ends when its head, and as many bytes as its head gives
/// for the body, were read.
pub proof fn law_text_with_body(
    status: Seq<char>,
    lines: Seq<Seq<char>>,
    body: Seq<u8>,
    rest: Stream,
)
    requires
        is_head(status, lines),
        !(100 <= status_line(status).0 <= 199),
        status_line(status).0 != 204,
        status_line(status).0 != 304,
        declared(seq![status] + lines) == Some(body.len()),
        encode_utf8(head_text(status, lines)).len() + body.len() <= usize::MAX,
    ensures
        text_from(
            unread(false),
            bytes_stream(latin1_bytes(head_text(status, lines))) + (bytes_stream(body) + rest),
        ) == Some(
            (Ok::<Seq<char>, std::io::Error>(head_text(status, lines) + latin1(body)), rest),
        ),
{
    lemma_text_with_body(None, status, lines, body, rest);
}

/// A stream that ends before as many bytes of a body came as the head announces gives all its
/// bytes as the text.
pub proof fn law_text_of_cut_body(
    status: Seq<char>,
    lines: Seq<Seq<char>>,
    length: nat,
    body: Seq<u8>,
)
    requires
        is_head(status, lines),
        !(100 <= status_line(status).0 <= 199),
        status_line(status).0 != 204,
        status_line(status).0 != 304,
        declared(seq![status] + lines) == Some(length),
        encode_utf8(head_text(status, lines)).len() + length <= usize::MAX,
        body.len() < length,
    ensures
        text_from(
            unread(false),
            bytes_stream(latin1_bytes(head_text(status, lines)) + body),
        ) == Some(
            (
                Ok::<Seq<char>, std::io::Error>(head_text(status, lines) + latin1(body)),
                Stream::empty(),
            ),
        ),
{
    lemma_text_of_cut_body(None, status, lines, length, body);
}

/// The reading of a response that has a body, with one line `Content-Length: ` and a number in
/// decimal digits among its header lines, ends with as many bytes behind the head.
pub proof fn law_text_of_written_length(
    status: Seq<char>,
    before: Seq<Seq<char>>,
    after: Seq<Seq<char>>,
    body: Seq<u8>,
    rest: Stream,
)
    requires
        is_head(status, before + seq![length_line(decimal(body.len()))] + after),
        !gives_length(status),
        forall|i: int| 0 <= i < before.len() ==> !gives_length(#[trigger] before[i]),
        forall|i: int| 0 <= i < after.len() ==> !gives_length(#[trigger] after[i]),
        !(100 <= status_line(status).0 <= 199),
        status_line(status).0 != 204,
        status_line(status).0 != 304,
        encode_utf8(
            head_text(status, before + seq![length_line(decimal(body.len()))] + after),
        ).len() + body.len() <= usize::MAX,
    ensures
        ({
            let text = head_text(status, before + seq![length_line(decimal(body.len()))] + after);
            text_from(
                unread(false),
                bytes_stream(latin1_bytes(text)) + (bytes_stream(body) + rest),
            ) == Some((Ok::<Seq<char>, std::io::Error>(text + latin1(body)), rest))
        }),
{
    let line = length_line(decimal(body.len()));
    let lines = before + seq![line] + after;
    let others = seq![status] + before + after;
    assert forall|i: int| 0 <= i < others.len() implies !gives_length(#[trigger] others[i]) by {
        if 0 < i <= before.len() {
            assert(others[i] == before[i - 1]);
        } else if i > before.len() {
            assert(others[i] == after[i - before.len() - 1]);
        }
    }
    law_other_lines_declare_nothing(others);
    law_length_line_declares(
        seq![status] + before,
        body.len() as usize,
        Seq::empty(),
        after,
    );
    assert(seq![status] + lines == seq![status] + before + seq![line] + after);
    law_text_with_body(status, lines, body, rest);
}

/// The reading of a response that is taken to have a body comes to a byte that it does not take if
/// the head announces the length of the body wrongly.
pub proof fn lemma_text_of_malformed_length(
    code: Option<i32>,
    status: Seq<char>,
    before: Seq<Seq<char>>,
    text: Seq<char>,
    after: Seq<Seq<char>>,
    rest: Stream,
)
    requires
        is_head(status, before + seq![length_line(text)] + after),
        unsigned(text, 10, usize::MAX as nat) is None,
        has_body(code, status),
    ensures
        text_from(
            unread_with(false, code),
            bytes_stream(latin1_bytes(head_text(status, before + seq![length_line(text)] + after)))
                + rest,
        ) is None,
{
    let line = length_line(text);
    let lines = before + seq![line] + after;
    let whole = head_text(status, lines);
    law_length_line_declares(seq![status] + before, 0, text, after);
    assert(seq![status] + lines == seq![status] + before + seq![line] + after);
    law_length_of_response(status, lines);
    lemma_head(false, code, status, lines);
    let start = latin1_bytes(whole.drop_last());
    let before_end = before_end_of_head(false, code, status, lines);
    let behind = bytes_stream(seq![0x0a]) + rest;
    assert(bytes_stream(latin1_bytes(whole)) + rest == bytes_stream(start) + behind);
    lemma_text_goes_on(unread_with(false, code), start, behind);
    assert(before_end.response.push('\n') == whole);
    assert(behind[0] == Ok::<u8, std::io::Error>(0x0a));
}

/// The reading of a response that has a body comes to a byte that it does not take if the head
/// announces the length of the body wrongly.
pub proof fn law_text_of_malformed_length(
    status: Seq<char>,
    before: Seq<Seq<char>>,
    text: Seq<char>,
    after: Seq<Seq<char>>,
    rest: Stream,
)
    requires
        is_head(status, before + seq![length_line(text)] + after),
        unsigned(text, 10, usize::MAX as nat) is None,
        !(100 <= status_line(status).0 <= 199),
        status_line(status).0 != 204,
        status_line(status).0 != 304,
    ensures
        text_from(
            unread(false),
            bytes_stream(latin1_bytes(head_text(status, before + seq![length_line(text)] + after)))
                + rest,
        ) is None,
{
    lemma_text_of_malformed_length(None, status, before, text, after, rest);
}

/// Whether nothing but carriage returns stands behind the last newline of some bytes.
pub open spec fn ends_blank(bytes: Seq<u8>) -> bool {
    exists|i: int|
        0 <= i < bytes.len() && #[trigger] bytes[i] == 0x0a && only_returns(bytes.skip(i + 1))
}

/// Whether some bytes hold two newlines with nothing but carriage returns between them.
pub open spec fn has_blank_line(bytes: Seq<u8>) -> bool {
    exists|count: int|
        0 <= count < bytes.len() && bytes[count] == 0x0a && #[trigger] ends_blank(
            bytes.take(count),
        )
}

/// The first line of some bytes, with its newline.
pub open spec fn first_of(bytes: Seq<u8>) -> Seq<u8>
    decreases bytes.len(),
{
    if bytes.len() == 0 {
        bytes
    } else if bytes[0] == 0x0a {
        seq![0x0a]
    } else {
        seq![bytes[0]] + first_of(bytes.drop_first())
    }
}

proof fn lemma_ends_blank(bytes: Seq<u8>, byte: u8)
    ensures
        ends_blank(bytes.push(byte)) <==> byte == 0x0a || (byte == 0x0d && ends_blank(bytes)),
{
    let longer = bytes.push(byte);
    if byte == 0x0a {
        assert(longer[bytes.len() as int] == 0x0a);
        assert(only_returns(longer.skip(bytes.len() as int + 1)));
    }
    if byte == 0x0d && ends_blank(bytes) {
        let i = choose|i: int|
            0 <= i < bytes.len() && #[trigger] bytes[i] == 0x0a && only_returns(bytes.skip(i + 1));
        assert(longer[i] == 0x0a);
        assert(longer.skip(i + 1) == bytes.skip(i + 1).push(byte));
        assert(only_returns(longer.skip(i + 1)));
    }
    if ends_blank(longer) && byte != 0x0a {
        let i = choose|i: int|
            0 <= i < longer.len() && #[trigger] longer[i] == 0x0a && only_returns(
                longer.skip(i + 1),
            );
        let end = longer.skip(i + 1);
        assert(i < bytes.len());
        assert(bytes[i] == 0x0a);
        assert(end.last() == byte);
        assert(end[end.len() - 1] == 0x0d);
        let shorter = bytes.skip(i + 1);
        assert forall|j: int| 0 <= j < shorter.len() implies shorter[j] == 0x0d by {
            assert(end[j] == shorter[j]);
        }
    }
}

proof fn lemma_first_of(bytes: Seq<u8>, byte: u8)
    ensures
        first_of(bytes.push(byte)) == if bytes.contains(0x0a) {
            first_of(bytes)
        } else {
            bytes.push(byte)
        },
        bytes.push(byte).contains(0x0a) <==> bytes.contains(0x0a) || byte == 0x0a,
    decreases bytes.len(),
{
    let longer = bytes.push(byte);
    if bytes.len() == 0 {
        assert(longer.drop_first() == bytes);
        assert(longer =~= seq![byte]);
        assert(longer[0] == byte);
        assert(!bytes.contains(0x0a));
        reveal_with_fuel(first_of, 2);
        assert(first_of(longer) =~= longer);
    } else {
        assert(longer.drop_first() == bytes.drop_first().push(byte));
        lemma_first_of(bytes.drop_first(), byte);
        let rest = bytes.drop_first();
        if bytes[0] != 0x0a {
            assert(bytes.contains(0x0a) <==> rest.contains(0x0a)) by {
                if bytes.contains(0x0a) {
                    let i = choose|i: int| 0 <= i < bytes.len() && bytes[i] == 0x0a;
                    assert(rest[i - 1] == 0x0a);
                }
                if rest.contains(0x0a) {
                    let i = choose|i: int| 0 <= i < rest.len() && rest[i] == 0x0a;
                    assert(bytes[i + 1] == 0x0a);
                }
            }
            assert(first_of(longer) == seq![bytes[0]] + first_of(rest.push(byte)));
            if !bytes.contains(0x0a) {
                assert(seq![bytes[0]] + rest.push(byte) =~= longer);
            }
        }
    }
    if bytes.contains(0x0a) {
        let i = choose|i: int| 0 <= i < bytes.len() && bytes[i] == 0x0a;
        assert(longer[i] == 0x0a);
    }
    if longer.contains(0x0a) {
        let i = choose|i: int| 0 <= i < longer.len() && longer[i] == 0x0a;
        if i < bytes.len() {
            assert(bytes[i] == 0x0a);
        }
    }
    if byte == 0x0a {
        assert(longer[bytes.len() as int] == 0x0a);
    }
}

/// What was read of a response of which `bytes` came, none of them behind its head.
pub open spec fn within_head(to_head: bool, code: Option<i32>, bytes: Seq<u8>) -> Reading {
    Reading {
        head: to_head,
        response: latin1(bytes),
        response_length: None,
        byte_count: bytes.len(),
        blank_line: ends_blank(bytes),
        status_code: match code {
            Some(code) => Some(code),
            None => if bytes.contains(0x0a) {
                Some(status_line(latin1(first_of(bytes))).0)
            } else {
                None
            },
        },
    }
}

/// Bytes without a blank line are all of the head.
pub proof fn lemma_within_head(to_head: bool, code: Option<i32>, bytes: Seq<u8>)
    requires
        !has_blank_line(bytes),
    ensures
        goes_on(unread_with(to_head, code), bytes),
        with_bytes(unread_with(to_head, code), bytes) == within_head(to_head, code, bytes),
    decreases bytes.len(),
{
    let reading = unread_with(to_head, code);
    if bytes.len() == 0 {
        assert(latin1(bytes) == Seq::<char>::empty());
        assert(!ends_blank(bytes));
        assert(!bytes.contains(0x0a));
    } else {
        let fewer = bytes.drop_last();
        let byte = bytes.last();
        assert(bytes == fewer.push(byte));
        assert(!has_blank_line(fewer)) by {
            if has_blank_line(fewer) {
                let count = choose|count: int|
                    0 <= count < fewer.len() && fewer[count] == 0x0a && #[trigger] ends_blank(
                        fewer.take(count),
                    );
                assert(fewer.take(count) == bytes.take(count));
                assert(bytes[count] == 0x0a);
            }
        }
        lemma_within_head(to_head, code, fewer);
        lemma_ends_blank(fewer, byte);
        lemma_first_of(fewer, byte);
        let one = seq![byte];
        assert(bytes == fewer + one);
        lemma_bytes_in_two_parts(reading, fewer, one);
        reveal_with_fuel(with_bytes, 2);
        reveal_with_fuel(goes_on, 2);
        assert(one.drop_first() == Seq::<u8>::empty());
        assert(latin1(bytes) == latin1(fewer).push(byte as char));
        assert(bytes.take(bytes.len() - 1) == fewer);
        if byte == 0x0a {
            assert(!ends_blank(bytes.take(bytes.len() - 1)));
        }
        assert(with_byte(within_head(to_head, code, fewer), byte) == within_head(
            to_head,
            code,
            bytes,
        ));
    }
}

/// The head of a response ends with its first line that is empty but for carriage returns, whether
/// the lines end in carriage returns or not. The reading of a response that is to a `HEAD` request,
/// or whose first line gives a code from 100 to 199, 204 or 304, ends there.
pub proof fn law_text_ends_with_blank_line(to_head: bool, start: Seq<u8>, rest: Stream)
    requires
        !has_blank_line(start),
        ends_blank(start),
        start.len() < usize::MAX,
        ({
            let code = status_line(latin1(first_of(start))).0;
            to_head || 100 <= code <= 199 || code == 204 || code == 304
        }),
    ensures
        text_from(unread(to_head), bytes_stream(start.push(0x0a)) + rest) == Some(
            (Ok::<Seq<char>, std::io::Error>(latin1(start.push(0x0a))), rest),
        ),
{
    lemma_blank_has_line(start);
    lemma_within_head(to_head, None, start);
    let behind = bytes_stream(seq![0x0a]) + rest;
    assert(bytes_stream(start.push(0x0a)) + rest == bytes_stream(start) + behind);
    lemma_text_goes_on(unread(to_head), start, behind);
    let before = within_head(to_head, None, start);
    assert(before.response.push('\n') == latin1(start.push(0x0a)));
    lemma_text_ends(before, 0x0a, rest);
}

proof fn lemma_blank_has_line(bytes: Seq<u8>)
    requires
        ends_blank(bytes),
    ensures
        bytes.contains(0x0a),
{
    let i = choose|i: int|
        0 <= i < bytes.len() && #[trigger] bytes[i] == 0x0a && only_returns(bytes.skip(i + 1));
    assert(bytes[i] == 0x0a);
}

/// The reading of a response that is taken to have a body ends when as many bytes came as its head
/// gives for the whole.
pub proof fn lemma_text_of_any_head(
    code: Option<i32>,
    start: Seq<u8>,
    body: Seq<u8>,
    rest: Stream,
)
    requires
        !has_blank_line(start),
        ends_blank(start),
        match code {
            Some(code) => !bodiless(false, code),
            None => !bodiless(false, status_line(latin1(first_of(start))).0),
        },
        stream_length(latin1(start.push(0x0a))) is Some,
        stream_length(latin1(start.push(0x0a)))->0 == start.len() + 1 + body.len(),
    ensures
        text_from(
            unread_with(false, code),
            bytes_stream(start.push(0x0a)) + (bytes_stream(body) + rest),
        ) == Some(
            (Ok::<Seq<char>, std::io::Error>(latin1(start.push(0x0a)) + latin1(body)), rest),
        ),
{
    lemma_blank_has_line(start);
    lemma_within_head(false, code, start);
    let head = latin1(start.push(0x0a));
    let behind = bytes_stream(seq![0x0a]) + (bytes_stream(body) + rest);
    assert(bytes_stream(start.push(0x0a)) + (bytes_stream(body) + rest) == bytes_stream(start)
        + behind);
    lemma_text_goes_on(unread_with(false, code), start, behind);
    let before = within_head(false, code, start);
    assert(before.response.push('\n') == head);
    if body.len() == 0 {
        lemma_text_ends(before, 0x0a, bytes_stream(body) + rest);
        assert(bytes_stream(body) + rest == rest);
        assert(head + latin1(body) == head);
    } else {
        let after = with_byte(before, 0x0a);
        assert(behind[0] == Ok::<u8, std::io::Error>(0x0a));
        assert(after_read(behind) == bytes_stream(body) + rest);
        lemma_body(after, body, rest);
    }
}

/// The reading of a response that has a body ends when as many bytes came as its head gives for
/// the whole, whether the lines of the head end in carriage returns or not.
pub proof fn law_text_of_any_head(start: Seq<u8>, body: Seq<u8>, rest: Stream)
    requires
        !has_blank_line(start),
        ends_blank(start),
        !(100 <= status_line(latin1(first_of(start))).0 <= 199),
        status_line(latin1(first_of(start))).0 != 204,
        status_line(latin1(first_of(start))).0 != 304,
        stream_length(latin1(start.push(0x0a))) is Some,
        stream_length(latin1(start.push(0x0a)))->0 == start.len() + 1 + body.len(),
    ensures
        text_from(
            unread(false),
            bytes_stream(start.push(0x0a)) + (bytes_stream(body) + rest),
        ) == Some(
            (Ok::<Seq<char>, std::io::Error>(latin1(start.push(0x0a)) + latin1(body)), rest),
        ),
{
    lemma_text_of_any_head(None, start, body, rest);
}

/// A stream that ends before the head of a response does gives all its bytes, and the reading takes
/// every byte of it, whatever bytes they are.
pub proof fn law_text_of_any_cut_head(to_head: bool, start: Seq<u8>)
    requires
        !has_blank_line(start),
    ensures
        text_from(unread(to_head), bytes_stream(start)) == Some(
            (Ok::<Seq<char>, std::io::Error>(latin1(start)), Stream::empty()),
        ),
{
    lemma_within_head(to_head, None, start);
    law_ended_text(unread(to_head), start);
    assert(unread(to_head).response + latin1(start) == latin1(start));
}

} // verus!
