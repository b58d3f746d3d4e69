use minreq::line::{read_line, ByteRead, LineStep};
use minreq::response::lazy::{Action, ByteWait, LineWait};
use minreq::response::metadata::{read_metadata, MetadataState, MetadataStep};
use minreq::response::CreateStep;
use minreq::{Error, Response, ResponseLazy};
use std::io;

/// What is left of a stream, the next read last.
struct Reads(Vec<Result<u8, io::Error>>);

impl Reads {
    fn of(bytes: &[u8]) -> Reads {
        Reads(bytes.iter().rev().map(|byte| Ok(*byte)).collect())
    }

    fn failing(bytes: &[u8]) -> Reads {
        let mut reads = Reads::of(bytes);
        reads
            .0
            .insert(0, Err(io::Error::new(io::ErrorKind::TimedOut, "late")));
        reads
    }

    fn byte(&mut self) -> ByteRead {
        self.0.pop()
    }

    fn line(&mut self) -> Result<String, Error> {
        let mut bytes = Vec::new();
        loop {
            match read_line(bytes, self.byte()) {
                LineStep::More(more) => bytes = more,
                LineStep::Done(line) => return line,
            }
        }
    }

    fn head(&mut self) -> Result<ResponseLazy, Error> {
        let mut state = MetadataState::StatusLine;
        loop {
            match read_metadata(state, self.line()) {
                MetadataStep::More(more) => state = more,
                MetadataStep::Done(metadata) => return ResponseLazy::from_stream(metadata),
            }
        }
    }

    fn next(&mut self, lazy: &mut ResponseLazy) -> Option<Result<(u8, usize), Error>> {
        let mut action = lazy.next();
        loop {
            action = match action {
                Action::ReadLine(wait) => {
                    let line = self.line();
                    lazy.line_read(wait, line)
                }
                Action::ReadByte(wait) => lazy.byte_read(wait, self.byte()),
                Action::Yield(item) => return Some(item),
                Action::Finish => return None,
            };
        }
    }

    fn response(&mut self, is_head: bool) -> Result<Response, Error> {
        let mut step = Response::create(self.head()?, is_head);
        loop {
            step = match step {
                CreateStep::ReadLine(partial, wait) => {
                    let line = self.line();
                    partial.line_read(wait, line)
                }
                CreateStep::ReadByte(partial, wait) => partial.byte_read(wait, self.byte()),
                CreateStep::Done(response) => return response,
            };
        }
    }
}

fn with_body(body: &[u8]) -> Response {
    let mut bytes = b"HTTP/1.1 200 OK\r\n\r\n".to_vec();
    bytes.extend_from_slice(body);
    Reads::of(&bytes).response(false).ok().unwrap()
}

#[test]
fn a_body_of_known_length_is_counted_down() {
    let mut reads = Reads::of(b"HTTP/1.1 200 OK\r\nContent-Length: 3\r\n\r\nabcdef");
    let mut lazy = reads.head().ok().unwrap();
    assert_eq!(reads.next(&mut lazy).unwrap().unwrap(), (b'a', 3));
    assert_eq!(lazy.body.content_length, Some(2));
    assert_eq!(reads.next(&mut lazy).unwrap().unwrap(), (b'b', 2));
    assert_eq!(reads.next(&mut lazy).unwrap().unwrap(), (b'c', 1));
    assert!(reads.next(&mut lazy).is_none());
    assert!(reads.next(&mut lazy).is_none());
    assert_eq!(reads.0.len(), 3);
}

#[test]
fn a_body_of_unknown_length_goes_on_until_the_end() {
    let mut reads = Reads::of(b"HTTP/1.1 200 OK\r\n\r\nab\r\n");
    let mut lazy = reads.head().ok().unwrap();
    for byte in b"ab\r\n".iter() {
        assert_eq!(reads.next(&mut lazy).unwrap().unwrap(), (*byte, 1));
    }
    assert!(reads.next(&mut lazy).is_none());
}

#[test]
fn a_chunk_is_counted_down_by_itself() {
    let mut reads = Reads::of(
        b"HTTP/1.1 200 OK\r\nTransfer-Encoding: chunked\r\n\r\n2\r\nab\r\n01\r\nc\r\n0\r\n\r\n",
    );
    let mut lazy = reads.head().ok().unwrap();
    assert_eq!(reads.next(&mut lazy).unwrap().unwrap(), (b'a', 2));
    assert_eq!(reads.next(&mut lazy).unwrap().unwrap(), (b'b', 1));
    assert_eq!(lazy.body.content_length, Some(0));
    assert_eq!(reads.next(&mut lazy).unwrap().unwrap(), (b'c', 1));
    assert!(!lazy.body.chunks_done);
    assert!(reads.next(&mut lazy).is_none());
    assert!(lazy.body.chunks_done);
    // The empty line behind the last chunk is not read.
    assert_eq!(reads.0.len(), 2);
    assert!(reads.next(&mut lazy).is_none());
    assert_eq!(reads.0.len(), 2);
}

#[test]
fn a_chunk_length_is_hexadecimal() {
    let mut bytes = b"HTTP/1.1 200 OK\r\nTransfer-Encoding: chunked\r\n\r\n1A\r\n".to_vec();
    bytes.extend_from_slice(b"abcdefghijklmnopqrstuvwxyz\r\n0\r\n");
    let response = Reads::of(&bytes).response(false).ok().unwrap();
    assert_eq!(response.as_str().unwrap(), "abcdefghijklmnopqrstuvwxyz");
}

#[test]
fn the_steps_of_a_byte_say_what_to_read() {
    let mut reads = Reads::of(b"HTTP/1.1 200 OK\r\nTransfer-Encoding: chunked\r\n\r\n");
    let mut lazy = reads.head().ok().unwrap();
    assert!(matches!(lazy.next(), Action::ReadLine(LineWait::ChunkLength)));
    let action = lazy.line_read(LineWait::ChunkLength, Ok("1".to_string()));
    assert!(matches!(action, Action::ReadByte(ByteWait::Counted(1))));
    let action = lazy.byte_read(ByteWait::Counted(1), Some(Ok(b'x')));
    assert!(matches!(action, Action::ReadLine(LineWait::ChunkEnd(b'x', 1))));
    let action = lazy.line_read(LineWait::ChunkEnd(b'x', 1), Ok(String::new()));
    assert!(matches!(action, Action::Yield(Ok((b'x', 1)))));
}

#[test]
fn a_malformed_chunk_length_is_refused() {
    for length in ["", "x", "-1", "1;a=b", "10000000000000000"].iter() {
        let text = format!(
            "HTTP/1.1 200 OK\r\nTransfer-Encoding: chunked\r\n\r\n{}\r\nabc",
            length
        );
        let mut reads = Reads::of(text.as_bytes());
        let mut lazy = reads.head().ok().unwrap();
        let item = reads.next(&mut lazy);
        assert!(matches!(item, Some(Err(Error::MalformedChunkLength))), "{}", length);
        assert_eq!(reads.0.len(), 3);
        let response = Reads::of(text.as_bytes()).response(false);
        assert!(matches!(response, Err(Error::MalformedChunkLength)));
    }
}

#[test]
fn a_body_in_chunks_needs_a_length() {
    let mut lazy = Reads::of(b"HTTP/1.1 200 OK\r\n\r\n").head().ok().unwrap();
    lazy.body.chunked = true;
    match lazy.next() {
        Action::Yield(Err(Error::Other(text))) => {
            assert_eq!(text, "content length was None in a chunked transfer")
        }
        _ => panic!("no error"),
    }
}

#[test]
fn a_failed_read_is_the_item_that_comes() {
    for head in [
        "HTTP/1.1 200 OK\r\nContent-Length: 3\r\n\r\na",
        "HTTP/1.1 200 OK\r\n\r\na",
        "HTTP/1.1 200 OK\r\nTransfer-Encoding: chunked\r\n\r\n2\r\na",
        "HTTP/1.1 200 OK\r\nTransfer-Encoding: chunked\r\n\r\n1\r\na\r\n",
    ]
    .iter()
    {
        let mut reads = Reads::failing(head.as_bytes());
        let mut lazy = reads.head().ok().unwrap();
        assert_eq!(reads.next(&mut lazy).unwrap().unwrap().0, b'a');
        let item = reads.next(&mut lazy);
        assert!(matches!(item, Some(Err(Error::IoError(_)))), "{}", head);
        let response = Reads::failing(head.as_bytes()).response(false);
        assert!(matches!(response, Err(Error::IoError(_))), "{}", head);
    }
}

#[test]
fn a_chunk_whose_end_cannot_be_read_fails() {
    let head = b"HTTP/1.1 200 OK\r\nTransfer-Encoding: chunked\r\n\r\n1\r\na\xff\r\n";
    let response = Reads::of(head).response(false);
    assert!(matches!(response, Err(Error::InvalidUtf8InResponse)));
}

#[test]
fn a_stream_that_ends_early_ends_the_body() {
    let mut reads = Reads::of(b"HTTP/1.1 200 OK\r\nContent-Length: 9\r\n\r\nabc");
    assert_eq!(reads.response(false).ok().unwrap().into_bytes(), b"abc");
    let mut reads = Reads::of(b"HTTP/1.1 200 OK\r\nTransfer-Encoding: chunked\r\n\r\n5\r\nabc");
    assert_eq!(reads.response(false).ok().unwrap().into_bytes(), b"abc");
}

#[test]
fn a_response_of_known_length_is_read_back() {
    let mut reads = Reads::of(b"HTTP/1.1 404 Not Found\r\nContent-Length: 3\r\nA: b\r\n\r\nabcdef");
    let response = reads.response(false).ok().unwrap();
    assert_eq!(response.status_code, 404);
    assert_eq!(response.reason_phrase, "Not Found");
    assert_eq!(response.headers.len(), 2);
    assert_eq!(response.headers.get("A").unwrap(), "b");
    assert_eq!(response.as_bytes(), b"abc");
    assert_eq!(reads.0.len(), 3);
}

#[test]
fn a_response_in_chunks_is_read_back() {
    let mut reads = Reads::of(
        b"HTTP/1.1 200 OK\r\nTransfer-Encoding: chunked\r\n\r\n5\r\nhello\r\n7\r\n, world\r\n0\r\nZ",
    );
    let response = reads.response(false).ok().unwrap();
    assert_eq!(response.as_str().unwrap(), "hello, world");
    assert_eq!(reads.0.len(), 1);
}

#[test]
fn a_response_to_head_has_no_body() {
    let mut reads = Reads::of(b"HTTP/1.1 200 OK\r\nContent-Length: 3\r\n\r\nabc");
    let response = reads.response(true).ok().unwrap();
    assert_eq!(response.as_bytes(), b"");
    assert_eq!(response.headers.get("Content-Length").unwrap(), "3");
    assert_eq!(reads.0.len(), 3);
}

#[test]
fn a_malformed_head_is_no_response() {
    let response = Reads::of(b"HTTP/1.1 200 OK\r\nContent-Length: x\r\n\r\n").response(false);
    assert!(matches!(response, Err(Error::MalformedContentLength)));
    let response = Reads::of(b"HTTP/1.1 200 \xff\r\n\r\n").response(false);
    assert!(matches!(response, Err(Error::InvalidUtf8InResponse)));
    let response = Reads::failing(b"HTTP/1.1 200 OK\r\nA: b").response(false);
    assert!(matches!(response, Err(Error::IoError(_))));
}

#[test]
fn a_body_is_given_as_text_and_as_bytes() {
    let response = with_body("Grüße".as_bytes());
    assert_eq!(response.as_str().unwrap(), "Grüße");
    assert_eq!(response.as_str().unwrap(), "Grüße");
    assert_eq!(response.as_bytes(), "Grüße".as_bytes());
    assert_eq!(response.into_bytes(), "Grüße".as_bytes());
}

#[test]
fn a_body_that_is_not_utf8_is_no_text() {
    let response = with_body(b"abc\xff");
    for _ in 0..2 {
        match response.as_str() {
            Err(Error::InvalidUtf8InBody(err)) => assert_eq!(err.valid_up_to(), 3),
            _ => panic!("no error"),
        }
    }
    assert_eq!(response.into_bytes(), b"abc\xff");
}

#[test]
fn json_is_read_from_the_body() {
    let response = with_body(b"[1, 2, 3]");
    assert_eq!(response.json::<Vec<u8>>().unwrap(), vec![1, 2, 3]);
    let response = with_body(b"{\"name\": \"value\"}");
    let value = response.json::<serde_json::Value>().unwrap();
    assert_eq!(value["name"], "value");
    let response = with_body(b"\"borrowed\"");
    assert_eq!(response.json::<&str>().unwrap(), "borrowed");
}

#[test]
fn json_that_does_not_fit_is_refused() {
    let response = with_body(b"[1, 2");
    assert!(matches!(response.json::<Vec<u8>>(), Err(Error::SerdeJsonError(_))));
    let response = with_body(b"\"text\"");
    assert!(matches!(response.json::<u8>(), Err(Error::SerdeJsonError(_))));
    let response = with_body(b"\"\xff\"");
    assert!(matches!(response.json::<String>(), Err(Error::InvalidUtf8InBody(_))));
}

#[test]
fn json_is_read_by_the_function_that_is_given() {
    let response = with_body(b"abc");
    assert_eq!(response.json_with(|text| Ok(text.len())).unwrap(), 3);
    let response = with_body(b"\xff");
    let value = response.json_with::<u8, _>(|_| panic!("the body is not UTF-8"));
    assert!(matches!(value, Err(Error::InvalidUtf8InBody(_))));
}
