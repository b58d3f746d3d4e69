use minreq::connection::http_connection::{
    get_response_length, read_from_stream, CountingReader, CountingStep,
};
use minreq::{HTTPConnection, Request};
use std::io;

fn connection(timeout: Option<u64>, variable: Option<&str>) -> HTTPConnection {
    let request = Request {
        host: "example.org:80".to_string(),
        is_head: false,
        timeout,
        text: "GET / HTTP/1.1\r\n\r\n".to_string(),
    };
    HTTPConnection::new(request, variable.map(|text| text.to_string()))
}

fn counted_text_of(bytes: &[u8]) -> (String, usize) {
    let mut reader = CountingReader::new();
    for (i, byte) in bytes.iter().enumerate() {
        assert!(reader.accepts(*byte));
        match read_from_stream(reader, Some(Ok(*byte))) {
            CountingStep::More(more) => reader = more,
            CountingStep::Done(text) => return (text.unwrap(), i + 1),
        }
    }
    match read_from_stream(reader, None) {
        CountingStep::Done(text) => (text.unwrap(), bytes.len()),
        CountingStep::More(_) => panic!("the stream has ended"),
    }
}

#[test]
fn the_timeout_is_five_seconds_if_nothing_gives_one() {
    assert_eq!(connection(Some(3), Some("7")).timeout, 3);
    assert_eq!(connection(None, Some("7")).timeout, 7);
    assert_eq!(connection(None, Some("seven")).timeout, 5);
    assert_eq!(connection(None, None).timeout, 5);
}

#[test]
fn a_request_is_sent_with_its_timeout() {
    let sending = connection(Some(3), None).send();
    assert_eq!(sending.host, "example.org:80");
    assert_eq!(sending.timeout, 3);
    assert_eq!(sending.bytes, b"GET / HTTP/1.1\r\n\r\n");
    assert_eq!(sending.reader.byte_count, 0);
}

#[test]
fn the_length_is_read_from_the_head() {
    let head = "HTTP/1.1 200 OK\r\nContent-Length: 10\r\n\r\n";
    assert_eq!(get_response_length(head.to_string()), head.len() + 10);
}

#[test]
fn a_text_is_read_by_its_length_whatever_its_code() {
    for code in [200, 204, 304, 404].iter() {
        let text = format!("HTTP/1.1 {} Reason\r\nContent-Length: 5\r\n\r\na\n\nbc", code);
        let stream = format!("{}rest", text);
        assert_eq!(counted_text_of(stream.as_bytes()), (text.clone(), text.len()));
    }
}

#[test]
fn a_counted_text_that_ends_early_is_what_was_read() {
    let text = "HTTP/1.1 200 OK\r\nContent-Length: 5\r\n\r\nab";
    assert_eq!(counted_text_of(text.as_bytes()), (text.to_string(), text.len()));
    assert_eq!(counted_text_of(b"\xe9"), ("é".to_string(), 1));
}

#[test]
fn a_counted_head_that_is_not_ascii_counts_as_its_bytes() {
    let stream = b"HTTP/1.1 200 OK\r\n\xe9: \xff\r\nContent-Length: 3\r\n\r\nabcrest";
    assert_eq!(counted_text_of(stream).1, stream.len() - 4);
    let stream = b"HTTP/1.1 200 OK\r\n\xe9: \r\n\r\nabc";
    assert_eq!(counted_text_of(stream).1, stream.len() - 3);
}

#[test]
fn a_counting_reader_does_not_take_a_malformed_length() {
    let mut reader = CountingReader::new();
    for byte in b"HTTP/1.1 204 Reason\r\nContent-Length: x\r\n\r".iter() {
        assert!(reader.accepts(*byte));
        reader = match read_from_stream(reader, Some(Ok(*byte))) {
            CountingStep::More(more) => more,
            CountingStep::Done(_) => panic!("the response has ended"),
        };
    }
    assert!(!reader.accepts(b'\n'));
}

#[test]
fn a_counting_reader_hands_on_a_failed_read() {
    let failed = io::Error::new(io::ErrorKind::TimedOut, "late");
    match read_from_stream(CountingReader::new(), Some(Err(failed))) {
        CountingStep::Done(Err(err)) => assert_eq!(err.kind(), io::ErrorKind::TimedOut),
        _ => panic!("no error"),
    }
}
