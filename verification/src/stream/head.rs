//! What comes out when the reading of a head is driven by a whole stream.

use crate::error::Error;
use crate::number::{
    decimal, law_decimal_is_read_back, law_signed_is_read_back, lemma_digits_are_plain, signed,
    unsigned,
};
use crate::outside::{ascii_lowercase, lowercase};
use crate::response::metadata::{
    header, header_splits, metadata_progress, reads, status_line, with_header_line, with_status,
    Metadata, MetadataProgress,
};
use crate::stream::{
    bytes_stream, first_line, law_end_of_stream_ends_a_line, law_failed_line,
    law_line_is_read_back, law_line_of_bytes, lemma_line_shortens, line_bytes, Stream,
};
use crate::text::{
    is_white_space, law_white_space_is_taken_off, lemma_position, lemma_position_characters,
    trimmed,
};
use vstd::prelude::*;
use vstd::utf8::*;

verus! {

/// What `read_metadata` gives when it is handed the lines of a stream, from what is `known` on,
/// and what is left of the stream.
pub open spec fn metadata_from(known: Option<Metadata>, stream: Stream) -> (
    Result<Metadata, Error>,
    Stream,
)
    decreases stream.len(), if known is None { 1int } else { 0int },
{
    let (line, rest) = first_line(stream);
    match metadata_progress(known, line) {
        MetadataProgress::More(known) => {
            proof {
                lemma_line_shortens(Seq::empty(), stream);
            }
            metadata_from(Some(known), rest)
        },
        MetadataProgress::Done(metadata) => (metadata, rest),
    }
}

/// What is known of a response after some lines of its head that are not empty.
pub open spec fn with_header_lines(known: Metadata, lines: Seq<Seq<char>>) -> Result<
    Metadata,
    Error,
>
    decreases lines.len(),
{
    if lines.len() == 0 {
        Ok(known)
    } else {
        match with_header_line(known, lines[0]) {
            Ok(known) => with_header_lines(known, lines.drop_first()),
            Err(err) => Err(err),
        }
    }
}

/// What the head of a response says: its status line, and the lines of its headers.
pub open spec fn head(status: Seq<char>, lines: Seq<Seq<char>>) -> Result<Metadata, Error> {
    with_header_lines(with_status(status), lines)
}

/// Some lines, as they stand in a stream, and an empty line behind them.
pub open spec fn lines_bytes(lines: Seq<Seq<char>>) -> Seq<u8>
    decreases lines.len(),
{
    if lines.len() == 0 {
        line_bytes(Seq::empty())
    } else {
        line_bytes(lines[0]) + lines_bytes(lines.drop_first())
    }
}

/// A head, as it stands in a stream.
pub open spec fn head_bytes(status: Seq<char>, lines: Seq<Seq<char>>) -> Seq<u8> {
    line_bytes(status) + lines_bytes(lines)
}

/// Whether a text can stand as a header line in a head.
pub open spec fn is_header_line(line: Seq<char>) -> bool {
    line.len() > 0 && !line.contains('\n') && header_splits(line)
}

proof fn lemma_lines_are_read_back(known: Metadata, lines: Seq<Seq<char>>, rest: Stream)
    requires
        forall|i: int| 0 <= i < lines.len() ==> is_header_line(#[trigger] lines[i]),
    ensures
        ({
            let (metadata, left) = metadata_from(
                Some(known),
                bytes_stream(lines_bytes(lines)) + rest,
            );
            metadata == with_header_lines(known, lines) && (metadata is Ok ==> left == rest)
        }),
    decreases lines.len(),
{
    let stream = bytes_stream(lines_bytes(lines)) + rest;
    if lines.len() == 0 {
        law_line_is_read_back(Seq::empty(), rest);
    } else {
        let others = lines.drop_first();
        let behind = bytes_stream(lines_bytes(others)) + rest;
        assert(is_header_line(lines[0]));
        assert(stream == bytes_stream(line_bytes(lines[0])) + behind);
        law_line_is_read_back(lines[0], behind);
        assert forall|i: int| 0 <= i < others.len() implies is_header_line(#[trigger] others[i]) by {
            assert(others[i] == lines[i + 1]);
        }
        if let Ok(known) = with_header_line(known, lines[0]) {
            lemma_lines_are_read_back(known, others, rest);
        }
    }
}

/// A head that is written as lines is read back as what its lines say, and nothing behind it is
/// read.
pub proof fn law_head_is_read_back(status: Seq<char>, lines: Seq<Seq<char>>, rest: Stream)
    requires
        !status.contains('\n'),
        forall|i: int| 0 <= i < lines.len() ==> is_header_line(#[trigger] lines[i]),
    ensures
        ({
            let (metadata, left) = metadata_from(
                None,
                bytes_stream(head_bytes(status, lines)) + rest,
            );
            metadata == head(status, lines) && (metadata is Ok ==> left == rest)
        }),
{
    let behind = bytes_stream(lines_bytes(lines)) + rest;
    assert(bytes_stream(head_bytes(status, lines)) + rest == bytes_stream(line_bytes(status))
        + behind);
    law_line_is_read_back(status, behind);
    lemma_lines_are_read_back(with_status(status), lines, rest);
}

/// A line of a head that cannot be read, or is not UTF-8, is what reading the head comes to, be it
/// the status line or a line behind it.
pub proof fn law_failed_head(
    known: Option<Metadata>,
    bytes: Seq<u8>,
    dropped: u8,
    err: std::io::Error,
    rest: Stream,
)
    requires
        !bytes.contains(0x0a),
        dropped != 0x0a,
    ensures
        ({
            let failed: Stream = seq![Err(err)];
            metadata_from(known, bytes_stream(bytes) + (failed + rest)) == (
                Err::<Metadata, Error>(Error::IoError(err)),
                rest,
            )
        }),
        !valid_utf8(bytes) ==> metadata_from(
            known,
            bytes_stream(bytes + seq![dropped, 0x0a]) + rest,
        ) == (Err::<Metadata, Error>(Error::InvalidUtf8InResponse), rest),
{
    law_failed_line(Seq::empty(), bytes, err, rest);
    law_line_of_bytes(bytes, dropped, rest);
}

/// A stream that ends where a header line could stand ends the head.
pub proof fn law_head_ends_with_stream(known: Metadata)
    ensures
        metadata_from(Some(known), Stream::empty()) == (
            Ok::<Metadata, Error>(known),
            Stream::empty(),
        ),
{
    let empty = Seq::<u8>::empty();
    law_end_of_stream_ends_a_line(empty, empty);
    assert(bytes_stream(empty) == Stream::empty());
    assert(empty + empty == encode_utf8(Seq::empty()));
    encode_utf8_valid_utf8(Seq::empty());
    encode_utf8_decode_utf8(Seq::empty());
}

/// A status line of a version, a code and a reason gives the code and the reason, and all of
/// the reason.
pub proof fn law_status_line_is_read_back(
    version: Seq<char>,
    code: Seq<char>,
    reason: Seq<char>,
)
    requires
        !version.contains(' '),
        !code.contains(' '),
        signed(code) is Some,
    ensures
        status_line(version + seq![' '] + code + seq![' '] + reason) == (signed(code)->0, reason),
{
    let line = version + seq![' '] + code + seq![' '] + reason;
    assert forall|i: int| 0 <= i < version.len() implies line[i] != ' ' by {
        assert(line[i] == version[i]);
    }
    lemma_position(line, ' ', version.len() as int);
    let after_version = line.skip(version.len() as int + 1);
    assert(after_version == code + seq![' '] + reason);
    assert forall|i: int| 0 <= i < code.len() implies after_version[i] != ' ' by {
        assert(after_version[i] == code[i]);
    }
    lemma_position(after_version, ' ', code.len() as int);
    assert(after_version.take(code.len() as int) == code);
    assert(after_version.skip(code.len() as int + 1) == reason);
}

/// A line that gives no status code counts as the code 503: one with less than two spaces, or
/// with something else than a number between the first two.
pub proof fn law_missing_status(version: Seq<char>, code: Seq<char>, reason: Seq<char>)
    requires
        !version.contains(' '),
        !code.contains(' '),
    ensures
        status_line(version) == (503i32, "Server did not provide a status line"@),
        status_line(version + seq![' '] + code) == (
            503i32,
            "Server did not provide a status line"@,
        ),
        signed(code) is None ==> status_line(version + seq![' '] + code + seq![' '] + reason) == (
            503i32,
            "Server did not provide a status line"@,
        ),
{
    lemma_position(version, ' ', version.len() as int);
    let short = version + seq![' '] + code;
    let line = short + seq![' '] + reason;
    assert forall|i: int| 0 <= i < version.len() implies short[i] != ' ' && line[i] != ' ' by {
        assert(short[i] == version[i] && line[i] == version[i]);
    }
    lemma_position(short, ' ', version.len() as int);
    lemma_position(line, ' ', version.len() as int);
    assert(short.skip(version.len() as int + 1) == code);
    lemma_position(code, ' ', code.len() as int);
    let after_version = line.skip(version.len() as int + 1);
    assert(after_version == code + seq![' '] + reason);
    assert forall|i: int| 0 <= i < code.len() implies after_version[i] != ' ' by {
        assert(after_version[i] == code[i]);
    }
    lemma_position(after_version, ' ', code.len() as int);
    assert(after_version.take(code.len() as int) == code);
}

proof fn lemma_status_stays(known: Metadata, lines: Seq<Seq<char>>)
    ensures
        with_header_lines(known, lines) matches Ok(after) ==> after.status_code == known.status_code
            && after.reason_phrase == known.reason_phrase,
    decreases lines.len(),
{
    if lines.len() > 0 {
        if let Ok(next) = with_header_line(known, lines[0]) {
            lemma_status_stays(next, lines.drop_first());
        }
    }
}

/// A head gives the code and the reason of its status line, whatever its header lines are.
pub proof fn law_head_gives_status(
    version: Seq<char>,
    code: Seq<char>,
    n: i32,
    reason: Seq<char>,
    lines: Seq<Seq<char>>,
)
    requires
        !version.contains(' '),
        !code.contains(' '),
        signed(code) == Some(n),
    ensures
        head(version + seq![' '] + code + seq![' '] + reason, lines) matches Ok(known) ==> {
            &&& known.status_code == n
            &&& known.reason_phrase == reason
        },
{
    let status = version + seq![' '] + code + seq![' '] + reason;
    law_status_line_is_read_back(version, code, reason);
    lemma_status_stays(with_status(status), lines);
}

/// A head gives every code that is written in its status line in decimal digits.
pub proof fn law_head_gives_written_code(
    version: Seq<char>,
    n: i32,
    reason: Seq<char>,
    lines: Seq<Seq<char>>,
)
    requires
        !version.contains(' '),
        n >= 0,
    ensures
        head(version + seq![' '] + decimal(n as nat) + seq![' '] + reason, lines) matches Ok(known)
            ==> {
            &&& known.status_code == n
            &&& known.reason_phrase == reason
        },
{
    law_signed_is_read_back(n);
    lemma_digits_are_plain(n as nat);
    law_head_gives_status(version, decimal(n as nat), n, reason, lines);
}

/// A head whose status line gives no code has the code 503, whatever its header lines are.
pub proof fn law_head_without_status(
    version: Seq<char>,
    code: Seq<char>,
    reason: Seq<char>,
    lines: Seq<Seq<char>>,
)
    requires
        !version.contains(' '),
        !code.contains(' '),
        signed(code) is None,
    ensures
        forall|status: Seq<char>|
            status == version || status == version + seq![' '] + code || status == version + seq![
                ' ',
            ] + code + seq![' '] + reason ==> (#[trigger] head(status, lines) matches Ok(known)
                ==> known.status_code == 503 && known.reason_phrase
                == "Server did not provide a status line"@),
{
    law_missing_status(version, code, reason);
    lemma_status_stays(with_status(version), lines);
    lemma_status_stays(with_status(version + seq![' '] + code), lines);
    lemma_status_stays(with_status(version + seq![' '] + code + seq![' '] + reason), lines);
}

/// A line with a colon is split there: what stands before the first colon is the name, and what
/// stands behind the character after it is the value. A line without a colon is no header.
pub proof fn law_header_is_split(name: Seq<char>, after: char, value: Seq<char>)
    requires
        !name.contains(':'),
    ensures
        header(name + seq![':', after] + value) == Some((name, value)),
        header_splits(name + seq![':', after] + value) <==> after <= '\u{7f}',
        !header_splits(name + seq![':']),
        header(name) is None,
        header_splits(name),
{
    let line = name + seq![':', after] + value;
    let short = name + seq![':'];
    assert forall|i: int| 0 <= i < name.len() implies line[i] != ':' && short[i] != ':' by {
        assert(line[i] == name[i] && short[i] == name[i]);
    }
    lemma_position(line, ':', name.len() as int);
    lemma_position(short, ':', name.len() as int);
    lemma_position(name, ':', name.len() as int);
    assert(line.take(name.len() as int) == name);
    assert(line.skip(name.len() as int + 2) == value);
}

/// A header line of a name and a value gives the two.
pub proof fn law_header_is_read_back(name: Seq<char>, value: Seq<char>)
    requires
        !name.contains(':'),
    ensures
        header_splits(name + seq![':', ' '] + value),
        header(name + seq![':', ' '] + value) == Some((name, value)),
{
    let line = name + seq![':', ' '] + value;
    assert forall|i: int| 0 <= i < name.len() implies line[i] != ':' by {
        assert(line[i] == name[i]);
    }
    lemma_position(line, ':', name.len() as int);
    assert(line.take(name.len() as int) == name);
    assert(line.skip(name.len() as int + 2) == value);
}

/// The headers that some lines give, each value under its name. Of two with the same name, the
/// later one counts.
pub open spec fn headers_in(lines: Seq<Seq<char>>) -> Map<Seq<char>, Seq<char>>
    decreases lines.len(),
{
    if lines.len() == 0 {
        Map::empty()
    } else {
        let before = headers_in(lines.drop_last());
        match header(lines.last()) {
            Some((name, value)) => before.insert(name, value),
            None => before,
        }
    }
}

/// The headers of a response are those that the lines of its head give.
pub proof fn law_headers_are_those_of_the_lines(status: Seq<char>, lines: Seq<Seq<char>>)
    ensures
        head(status, lines) matches Ok(known) ==> known.headers == headers_in(lines),
    decreases lines.len(),
{
    if lines.len() > 0 {
        law_headers_are_those_of_the_lines(status, lines.drop_last());
        lemma_last_line(with_status(status), lines);
    }
}

/// Whether a line is a header of this name.
pub open spec fn is_named(line: Seq<char>, name: Seq<char>) -> bool {
    line.len() > name.len() && line.take(name.len() as int) == name && line[name.len() as int]
        == ':'
}

proof fn lemma_named(line: Seq<char>, name: Seq<char>)
    requires
        !name.contains(':'),
    ensures
        is_named(line, name) <==> (header(line) matches Some((other, _)) && other == name),
{
    lemma_position_characters(line, ':');
    if is_named(line, name) {
        assert forall|i: int| 0 <= i < name.len() implies line[i] != ':' by {
            assert(line[i] == line.take(name.len() as int)[i]);
            assert(name[i] == line[i]);
        }
        lemma_position(line, ':', name.len() as int);
    }
}

/// A response has the value of each header line, unless a later line gives the same name another
/// value. It has no header that no line gives.
pub proof fn law_header_is_found(
    status: Seq<char>,
    before: Seq<Seq<char>>,
    name: Seq<char>,
    value: Seq<char>,
    after: Seq<Seq<char>>,
)
    requires
        !name.contains(':'),
        forall|i: int| 0 <= i < after.len() ==> !is_named(#[trigger] after[i], name),
    ensures
        head(status, before + seq![name + seq![':', ' '] + value] + after) matches Ok(known) ==> {
            &&& known.headers.contains_key(name)
            &&& known.headers[name] == value
        },
        head(status, after) matches Ok(known) ==> !known.headers.contains_key(name),
{
    let line = name + seq![':', ' '] + value;
    let lines = before + seq![line] + after;
    law_headers_are_those_of_the_lines(status, lines);
    law_headers_are_those_of_the_lines(status, after);
    lemma_header_found(before, name, value, after);
}

proof fn lemma_header_found(
    before: Seq<Seq<char>>,
    name: Seq<char>,
    value: Seq<char>,
    after: Seq<Seq<char>>,
)
    requires
        !name.contains(':'),
        forall|i: int| 0 <= i < after.len() ==> !is_named(#[trigger] after[i], name),
    ensures
        ({
            let found = headers_in(before + seq![name + seq![':', ' '] + value] + after);
            found.contains_key(name) && found[name] == value
        }),
        !headers_in(after).contains_key(name),
    decreases after.len(),
{
    let line = name + seq![':', ' '] + value;
    let lines = before + seq![line] + after;
    if after.len() == 0 {
        law_header_is_read_back(name, value);
        assert(lines.last() == line);
    } else {
        let fewer = after.drop_last();
        assert forall|i: int| 0 <= i < fewer.len() implies !is_named(#[trigger] fewer[i], name) by {
            assert(fewer[i] == after[i]);
        }
        lemma_header_found(before, name, value, fewer);
        assert(lines.drop_last() == before + seq![line] + fewer);
        assert(lines.last() == after.last());
        assert(!is_named(after[after.len() - 1], name));
        lemma_named(after.last(), name);
    }
}

proof fn lemma_last_line(known: Metadata, lines: Seq<Seq<char>>)
    requires
        lines.len() > 0,
    ensures
        with_header_lines(known, lines) == match with_header_lines(known, lines.drop_last()) {
            Ok(before) => with_header_line(before, lines.last()),
            Err(err) => Err(err),
        },
    decreases lines.len(),
{
    reveal_with_fuel(with_header_lines, 2);
    if lines.len() == 1 {
        assert(lines.drop_last() == Seq::<Seq<char>>::empty());
        assert(lines.drop_first() == Seq::<Seq<char>>::empty());
    } else {
        let others = lines.drop_first();
        assert(others.drop_last() == lines.drop_last().drop_first());
        if let Ok(known) = with_header_line(known, lines[0]) {
            lemma_last_line(known, others);
        }
    }
}

/// Upper and lower case make no difference to how an ASCII text is understood.
pub proof fn law_case_is_ignored(left: Seq<char>, right: Seq<char>, word: Seq<char>)
    requires
        is_ascii_chars(left),
        is_ascii_chars(right),
        left.len() == right.len(),
        forall|i: int|
            0 <= i < left.len() ==> ascii_lowercase(#[trigger] left[i]) == ascii_lowercase(right[i]),
    ensures
        reads(left, word) == reads(right, word),
{
    assert(lowercase(left) == lowercase(right));
}

/// Whatever the lines of a head are, it never announces a body in chunks without a length.
pub proof fn law_chunked_head_has_length(status: Seq<char>, lines: Seq<Seq<char>>)
    ensures
        head(status, lines) matches Ok(known) ==> known.chunked ==> known.content_length == Some(
            0usize,
        ),
{
    lemma_chunked_has_length(with_status(status), lines);
}

proof fn lemma_chunked_has_length(known: Metadata, lines: Seq<Seq<char>>)
    requires
        known.chunked ==> known.content_length == Some(0usize),
    ensures
        with_header_lines(known, lines) matches Ok(after) ==> after.chunked
            ==> after.content_length == Some(0usize),
    decreases lines.len(),
{
    if lines.len() > 0 {
        if let Ok(after) = with_header_line(known, lines[0]) {
            lemma_chunked_has_length(after, lines.drop_first());
        }
    }
}

/// Whether a line of a head says that the body comes in chunks.
pub open spec fn chunked_line(line: Seq<char>) -> bool {
    header(line) matches Some((name, value)) && trimmed(lowercase(name)) == "transfer-encoding"@
        && trimmed(lowercase(value)) == "chunked"@
}

/// The value of the `Content-Length` header, if a line of a head is one.
pub open spec fn length_in(line: Seq<char>) -> Option<Seq<char>> {
    match header(line) {
        Some((name, value)) => if trimmed(lowercase(name)) == "content-length"@ {
            Some(value)
        } else {
            None
        },
        None => None,
    }
}

/// The length of the body by the first line of a head that gives one.
pub open spec fn first_length(lines: Seq<Seq<char>>) -> Option<usize>
    decreases lines.len(),
{
    if lines.len() == 0 {
        None
    } else {
        match length_in(lines[0]) {
            Some(value) => match unsigned(trimmed(value), 10, usize::MAX as nat) {
                Some(length) => Some(length as usize),
                None => None,
            },
            None => first_length(lines.drop_first()),
        }
    }
}

/// Whether a line of a head gives a length that is none, before another line gives one or says
/// that the body comes in chunks.
pub open spec fn malformed_at(lines: Seq<Seq<char>>, at: int) -> bool {
    &&& 0 <= at < lines.len()
    &&& length_in(lines[at]) matches Some(value) && unsigned(
        trimmed(value),
        10,
        usize::MAX as nat,
    ) is None
    &&& forall|i: int|
        0 <= i < at ==> !chunked_line(#[trigger] lines[i]) && length_in(lines[i]) is None
}

/// A head is refused if the first line that gives a length gives one that is none, and no line
/// before it says that the body comes in chunks. It is refused for nothing else. The body comes in
/// chunks if any line says so, whatever length other lines give. Otherwise the first line that
/// gives a length gives that of the body.
pub proof fn law_body_is_as_announced(status: Seq<char>, lines: Seq<Seq<char>>)
    ensures
        head(status, lines) is Err <==> exists|at: int| #[trigger] malformed_at(lines, at),
        match head(status, lines) {
            Ok(known) => {
                &&& known.chunked <==> exists|i: int|
                    0 <= i < lines.len() && #[trigger] chunked_line(lines[i])
                &&& !known.chunked ==> known.content_length == first_length(lines)
            },
            Err(err) => err == Error::MalformedContentLength,
        },
{
    lemma_announced(with_status(status), lines);
    lemma_refused(with_status(status), lines);
}

proof fn lemma_chunked_line_gives_no_length(line: Seq<char>)
    requires
        chunked_line(line),
    ensures
        length_in(line) is None,
{
    reveal_strlit("transfer-encoding");
    reveal_strlit("content-length");
    assert("transfer-encoding"@.len() != "content-length"@.len());
}

proof fn lemma_known_is_not_refused(known: Metadata, lines: Seq<Seq<char>>)
    requires
        known.content_length is Some,
    ensures
        with_header_lines(known, lines) is Ok,
    decreases lines.len(),
{
    if lines.len() > 0 {
        if let Ok(next) = with_header_line(known, lines[0]) {
            lemma_known_is_not_refused(next, lines.drop_first());
        }
    }
}

proof fn lemma_refused(known: Metadata, lines: Seq<Seq<char>>)
    requires
        !known.chunked,
        known.content_length is None,
    ensures
        with_header_lines(known, lines) is Err <==> exists|at: int|
            #[trigger] malformed_at(lines, at),
    decreases lines.len(),
{
    if lines.len() > 0 {
        let others = lines.drop_first();
        let first = lines[0];
        if chunked_line(first) {
            lemma_chunked_line_gives_no_length(first);
        }
        match with_header_line(known, first) {
            Err(_) => {
                assert(malformed_at(lines, 0));
            },
            Ok(next) => {
                assert(!malformed_at(lines, 0));
                if chunked_line(first) || length_in(first) is Some {
                    lemma_known_is_not_refused(next, others);
                    assert forall|at: int| !#[trigger] malformed_at(lines, at) by {
                        if malformed_at(lines, at) && at > 0 {
                            assert(!chunked_line(lines[0]) && length_in(lines[0]) is None);
                        }
                    }
                } else {
                    lemma_refused(next, others);
                    if exists|at: int| #[trigger] malformed_at(others, at) {
                        let at = choose|at: int| #[trigger] malformed_at(others, at);
                        assert forall|i: int| 0 <= i < at + 1 implies !chunked_line(
                            #[trigger] lines[i],
                        ) && length_in(lines[i]) is None by {
                            if i > 0 {
                                assert(others[i - 1] == lines[i]);
                            }
                        }
                        assert(malformed_at(lines, at + 1));
                    }
                    if exists|at: int| #[trigger] malformed_at(lines, at) {
                        let at = choose|at: int| #[trigger] malformed_at(lines, at);
                        assert forall|i: int| 0 <= i < at - 1 implies !chunked_line(
                            #[trigger] others[i],
                        ) && length_in(others[i]) is None by {
                            assert(others[i] == lines[i + 1]);
                        }
                        assert(malformed_at(others, at - 1));
                    }
                }
            },
        }
    }
}

proof fn lemma_announced(known: Metadata, lines: Seq<Seq<char>>)
    ensures
        match with_header_lines(known, lines) {
            Ok(after) => {
                &&& after.chunked <==> known.chunked || exists|i: int|
                    0 <= i < lines.len() && #[trigger] chunked_line(lines[i])
                &&& !after.chunked ==> after.content_length == match known.content_length {
                    Some(length) => Some(length),
                    None => first_length(lines),
                }
            },
            Err(err) => err == Error::MalformedContentLength,
        },
    decreases lines.len(),
{
    if lines.len() > 0 {
        let others = lines.drop_first();
        if let Ok(next) = with_header_line(known, lines[0]) {
            lemma_announced(next, others);
            assert(next.chunked <==> known.chunked || chunked_line(lines[0]));
            if exists|i: int| 0 <= i < others.len() && #[trigger] chunked_line(others[i]) {
                let i = choose|i: int| 0 <= i < others.len() && #[trigger] chunked_line(others[i]);
                assert(chunked_line(lines[i + 1]));
            }
            if exists|i: int| 0 <= i < lines.len() && #[trigger] chunked_line(lines[i]) {
                let i = choose|i: int| 0 <= i < lines.len() && #[trigger] chunked_line(lines[i]);
                if i > 0 {
                    assert(chunked_line(others[i - 1]));
                }
            }
        }
    }
}

/// Whether a text is `word` but for the case of ASCII letters.
pub open spec fn is_word(text: Seq<char>, word: Seq<char>) -> bool {
    &&& is_ascii_chars(text)
    &&& text.len() == word.len()
    &&& forall|i: int|
        0 <= i < text.len() ==> if 'A' <= #[trigger] text[i] <= 'Z' {
            word[i] as int == text[i] as int + 32
        } else {
            word[i] == text[i]
        }
}

/// A word is understood in letters of any case.
pub proof fn lemma_word(text: Seq<char>, word: Seq<char>)
    requires
        is_word(text, word),
        word.len() > 0,
        !is_white_space(word[0]),
        !is_white_space(word.last()),
    ensures
        trimmed(lowercase(text)) == word,
{
    let lower = lowercase(text);
    assert forall|i: int| 0 <= i < text.len() implies lower[i] == word[i] by {
        lemma_lowercase(text[i], word[i]);
    }
    assert(lower =~= word);
    let empty = Seq::<char>::empty();
    law_white_space_is_taken_off(empty, word, empty);
    assert(empty + word + empty == word);
}

proof fn lemma_lowercase(c: char, lower: char)
    requires
        if 'A' <= c <= 'Z' {
            lower as int == c as int + 32
        } else {
            lower == c
        },
    ensures
        ascii_lowercase(c) == lower,
{
}

proof fn lemma_found(line: Seq<char>, lines: Seq<Seq<char>>, at: int)
    requires
        0 <= at < lines.len(),
        lines[at] == line,
        chunked_line(line),
    ensures
        exists|i: int| 0 <= i < lines.len() && #[trigger] chunked_line(lines[i]),
{
    assert(chunked_line(lines[at]));
}

/// A header `Transfer-Encoding: chunked`, in letters of any case, announces a body in chunks,
/// whatever the other lines of the head are.
pub proof fn law_chunks_are_announced(
    status: Seq<char>,
    before: Seq<Seq<char>>,
    name: Seq<char>,
    value: Seq<char>,
    after: Seq<Seq<char>>,
)
    requires
        is_word(name, "transfer-encoding"@),
        is_word(value, "chunked"@),
    ensures
        head(status, before + seq![name + seq![':', ' '] + value] + after) matches Ok(known) ==> {
            &&& known.chunked
            &&& known.content_length == Some(0usize)
        },
{
    reveal_strlit("transfer-encoding");
    reveal_strlit("chunked");
    let line = name + seq![':', ' '] + value;
    let lines = before + seq![line] + after;
    lemma_word(name, "transfer-encoding"@);
    lemma_word(value, "chunked"@);
    lemma_word_has_no_colon(name, "transfer-encoding"@);
    law_header_is_read_back(name, value);
    lemma_found(line, lines, before.len() as int);
    law_body_is_as_announced(status, lines);
    law_chunked_head_has_length(status, lines);
}

proof fn lemma_word_has_no_colon(text: Seq<char>, word: Seq<char>)
    requires
        is_word(text, word),
        forall|i: int| 0 <= i < word.len() ==> word[i] != ':',
    ensures
        !text.contains(':'),
{
    if text.contains(':') {
        let i = choose|i: int| 0 <= i < text.len() && text[i] == ':';
        assert(word[i] == text[i]);
    }
}

proof fn lemma_first_length(before: Seq<Seq<char>>, line: Seq<char>, after: Seq<Seq<char>>)
    requires
        forall|i: int| 0 <= i < before.len() ==> length_in(#[trigger] before[i]) is None,
    ensures
        first_length(before + seq![line] + after) == first_length(seq![line] + after),
        first_length(before) is None,
    decreases before.len(),
{
    let lines = before + seq![line] + after;
    if before.len() == 0 {
        assert(lines == seq![line] + after);
    } else {
        let rest = before.drop_first();
        assert(length_in(before[0]) is None);
        assert(lines.drop_first() == rest + seq![line] + after);
        assert forall|i: int| 0 <= i < rest.len() implies length_in(#[trigger] rest[i]) is None by {
            assert(rest[i] == before[i + 1]);
        }
        lemma_first_length(rest, line, after);
    }
}

/// A header `Content-Length`, its name in letters of any case, announces a body of every length
/// that is written in it in decimal digits, if no line before it gives a length and no line
/// announces chunks.
pub proof fn law_length_is_announced(
    status: Seq<char>,
    before: Seq<Seq<char>>,
    name: Seq<char>,
    n: usize,
    after: Seq<Seq<char>>,
)
    requires
        is_word(name, "content-length"@),
        forall|i: int| 0 <= i < before.len() ==> length_in(#[trigger] before[i]) is None,
        forall|i: int| 0 <= i < before.len() ==> !chunked_line(#[trigger] before[i]),
        forall|i: int| 0 <= i < after.len() ==> !chunked_line(#[trigger] after[i]),
    ensures
        head(status, before + seq![name + seq![':', ' '] + decimal(n as nat)] + after) matches Ok(
            known,
        ) && !known.chunked && known.content_length == Some(n),
{
    reveal_strlit("content-length");
    reveal_strlit("transfer-encoding");
    let value = decimal(n as nat);
    let line = name + seq![':', ' '] + value;
    let lines = before + seq![line] + after;
    lemma_word(name, "content-length"@);
    lemma_word_has_no_colon(name, "content-length"@);
    law_header_is_read_back(name, value);
    lemma_digits_are_plain(n as nat);
    law_decimal_is_read_back(n as nat, usize::MAX as nat);
    let empty = Seq::<char>::empty();
    assert(value.len() > 0);
    assert('0' <= value[0] <= '9');
    assert('0' <= value[value.len() - 1] <= '9');
    law_white_space_is_taken_off(empty, value, empty);
    assert(empty + value + empty == value);
    assert("content-length"@.len() != "transfer-encoding"@.len());
    law_body_is_as_announced(status, lines);
    lemma_first_length(before, line, after);
    assert((seq![line] + after)[0] == line);
    assert(first_length(lines) == Some(n));
    assert forall|i: int| 0 <= i < lines.len() implies !chunked_line(#[trigger] lines[i]) by {
        if i < before.len() {
            assert(lines[i] == before[i]);
        } else if i > before.len() {
            assert(lines[i] == after[i - before.len() - 1]);
        }
    }
    assert forall|at: int| !#[trigger] malformed_at(lines, at) by {
        if malformed_at(lines, at) {
            if at < before.len() {
                assert(lines[at] == before[at]);
            } else if at > before.len() {
                assert(length_in(lines[before.len() as int]) is None);
            }
        }
    }
}

} // verus!
