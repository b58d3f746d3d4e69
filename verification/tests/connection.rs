use minreq::connection::{
    checked_response_length, get_response_length, read_from_stream, server_name, timeout_message,
    FailureKind, ReadStep, ResponseReader,
};
use minreq::{Connection, Request};
use std::io;

fn request(is_head: bool, timeout: Option<u64>) -> Request {
    Request {
        host: "example.org:80".to_string(),
        is_head,
        timeout,
        text: "GET / HTTP/1.1\r\nHost: é\r\n\r\n".to_string(),
    }
}

fn timeout(own: Option<u64>, variable: Option<&str>) -> Option<u64> {
    Connection::new(request(false, own), variable.map(|text| text.to_string())).timeout
}

/// The text that is read of the bytes, and how many of them are read.
fn text_of(head: bool, bytes: &[u8]) -> (String, usize) {
    let mut reader = ResponseReader::new(head);
    for (i, byte) in bytes.iter().enumerate() {
        assert!(reader.accepts(*byte));
        match read_from_stream(reader, Some(Ok(*byte))) {
            ReadStep::More(more) => reader = more,
            ReadStep::Done(text) => return (text.unwrap(), i + 1),
        }
    }
    match read_from_stream(reader, None) {
        ReadStep::Done(text) => (text.unwrap(), bytes.len()),
        ReadStep::More(_) => panic!("the stream has ended"),
    }
}

fn reader_after(bytes: &[u8]) -> ResponseReader {
    let mut reader = ResponseReader::new(false);
    for byte in bytes {
        assert!(reader.accepts(*byte));
        reader = match read_from_stream(reader, Some(Ok(*byte))) {
            ReadStep::More(more) => more,
            ReadStep::Done(_) => panic!("the response has ended"),
        };
    }
    reader
}

#[test]
fn the_timeout_is_that_of_the_request_or_of_the_variable() {
    assert_eq!(timeout(Some(3), Some("7")), Some(3));
    assert_eq!(timeout(Some(3), None), Some(3));
    assert_eq!(timeout(None, Some("7")), Some(7));
    assert_eq!(timeout(None, Some("seven")), None);
    assert_eq!(timeout(None, Some("-7")), None);
    assert_eq!(timeout(None, Some("18446744073709551615")), Some(u64::MAX));
    assert_eq!(timeout(None, Some("18446744073709551616")), None);
    assert_eq!(timeout(None, None), None);
}

#[test]
fn a_request_is_sent_as_its_bytes() {
    let sending = Connection::new(request(true, Some(3)), None).send();
    assert_eq!(sending.host, "example.org:80");
    assert_eq!(sending.timeout, Some(3));
    assert_eq!(sending.bytes, "GET / HTTP/1.1\r\nHost: é\r\n\r\n".as_bytes());
    assert!(sending.reader.head);
    assert!(!Connection::new(request(false, None), None).send().reader.head);
}

#[test]
fn the_server_name_is_the_host_without_its_port() {
    let name = |host| {
        server_name(host).ok().map(|name| {
            let name: &str = name.into();
            name.to_string()
        })
    };
    assert_eq!(name("example.org:443"), Some("example.org".to_string()));
    assert_eq!(name("example.org"), Some("example.org".to_string()));
    assert_eq!(name("example.org:443:1"), Some("example.org".to_string()));
    assert_eq!(name(":443"), None);
    assert_eq!(name("-example.org"), None);
    assert_eq!(name("exämple.org"), None);
    let label = "a".repeat(50);
    let long = format!("{}.{}.{}.{}.{}", label, label, label, label, label);
    assert_eq!(long.len(), 254);
    assert_eq!(name(&long), None);
    assert!(name(&long[1..]).is_some());
}

#[test]
fn a_timeout_is_described() {
    let text = Some("Request timed out! Timeout: Ok(Some(5s))".to_string());
    assert_eq!(timeout_message(FailureKind::WouldBlock, "Ok(Some(5s))"), text);
    assert_eq!(timeout_message(FailureKind::TimedOut, "Ok(Some(5s))"), text);
    assert_eq!(timeout_message(FailureKind::Other, "Ok(Some(5s))"), None);
}

#[test]
fn the_length_of_a_response_is_that_of_its_head_and_body() {
    let head = "HTTP/1.1 200 OK\r\nContent-Length: 10\r\n\r\n";
    assert_eq!(get_response_length(head), head.len() + 10);
    assert_eq!(checked_response_length(head), Some(49));
    assert_eq!(checked_response_length(""), Some(0));
    assert_eq!(checked_response_length("a"), Some(3));
    assert_eq!(checked_response_length("a\n\n"), Some(5));
    assert_eq!(checked_response_length("a\r"), Some(4));
    assert_eq!(checked_response_length("é\r\n"), Some(4));
    assert_eq!(checked_response_length("content-length: 9\r\n"), Some(19));
    assert_eq!(
        checked_response_length("Content-Length: 9\r\nContent-Length: +1\r\n"),
        Some(19 + 20 + 10)
    );
}

#[test]
fn a_length_that_is_malformed_is_not_known() {
    assert_eq!(checked_response_length("Content-Length: x\r\n"), None);
    assert_eq!(checked_response_length("Content-Length: \r\n"), None);
    assert_eq!(checked_response_length("Content-Length: 9 \r\n"), None);
    assert_eq!(checked_response_length("Content-Length: 18446744073709551615\r\n"), None);
    let half = "Content-Length: 9223372036854775808\r\n";
    assert!(checked_response_length(half).is_some());
    assert_eq!(checked_response_length(&half.repeat(2)), None);
}

#[test]
fn a_text_is_read_to_the_end_of_its_body() {
    let text = "HTTP/1.1 200 OK\r\nContent-Length: 5\r\n\r\na\n\nbc";
    let stream = format!("{}rest", text);
    assert_eq!(text_of(false, stream.as_bytes()), (text.to_string(), text.len()));
    let text = "HTTP/1.1 200 OK\r\n\r\n";
    let stream = format!("{}rest", text);
    assert_eq!(text_of(false, stream.as_bytes()), (text.to_string(), text.len()));
}

#[test]
fn a_text_without_a_body_is_its_head() {
    for (head, code) in [(true, 200), (false, 100), (false, 199), (false, 204), (false, 304)].iter() {
        let text = format!("HTTP/1.1 {} Reason\r\nContent-Length: 5\r\n\r\n", code);
        let stream = format!("{}abcde", text);
        assert_eq!(text_of(*head, stream.as_bytes()), (text.clone(), text.len()));
    }
    for code in [99, 200, 203, 205, 303, 404].iter() {
        let text = format!("HTTP/1.1 {} Reason\r\nContent-Length: 5\r\n\r\nabcde", code);
        assert_eq!(text_of(false, text.as_bytes()).1, text.len());
    }
}

#[test]
fn a_text_that_ends_early_is_what_was_read() {
    let text = "HTTP/1.1 200 OK\r\nContent-Length: 5\r\n\r\nab";
    assert_eq!(text_of(false, text.as_bytes()), (text.to_string(), text.len()));
    assert_eq!(text_of(false, b""), (String::new(), 0));
}

#[test]
fn each_byte_is_a_character() {
    let (text, count) = text_of(true, b"HTTP/1.1 200 \xe9\xff");
    assert_eq!(text, "HTTP/1.1 200 éÿ");
    assert_eq!(count, 15);
}

#[test]
fn a_response_without_a_body_ends_with_its_head() {
    let stream = b"HTTP/1.1 200 OK\r\n\xe9: \r\n\r\nabc";
    let head = "HTTP/1.1 200 OK\r\n\u{e9}: \r\n\r\n".to_string();
    assert_eq!(text_of(true, stream), (head, 24));
    let stream = b"HTTP/1.1 204 \xff\xff\r\nContent-Length: x\r\n\r\nabc";
    assert_eq!(text_of(false, stream).1, stream.len() - 3);
}

#[test]
fn a_head_that_is_not_ascii_counts_as_its_bytes() {
    // The head takes 44 bytes of the stream, and 46 as a text.
    let stream = b"HTTP/1.1 200 OK\r\n\xe9: \xff\r\nContent-Length: 3\r\n\r\nab\xe9rest";
    let text = "HTTP/1.1 200 OK\r\n\u{e9}: \u{ff}\r\nContent-Length: 3\r\n\r\nab\u{e9}";
    assert_eq!(text_of(false, stream), (text.to_string(), stream.len() - 4));
    let stream = b"HTTP/1.1 200 OK\r\n\xe9: \r\n\r\nabc";
    assert_eq!(checked_response_length("HTTP/1.1 200 OK\r\n\u{e9}: \r\n\r\n"), Some(25));
    assert_eq!(text_of(false, stream).1, 24);
}

#[test]
fn a_stream_that_ends_early_gives_all_its_bytes() {
    let text = "HTTP/1.1 200 OK\r\nContent-Length: 5\r\n\r\nabcde";
    for count in 0..text.len() {
        let (read, taken) = text_of(false, &text.as_bytes()[..count]);
        assert_eq!((read.as_str(), taken), (&text[..count], count));
    }
}

#[test]
fn a_malformed_length_is_not_taken() {
    let head = b"HTTP/1.1 200 OK\r\nContent-Length: x\r\n\r";
    let reader = reader_after(head);
    assert!(!reader.accepts(b'\n'));
    assert!(reader.accepts(b'a'));
    let reader = reader_after(b"HTTP/1.1 204 Reason\r\nContent-Length: x\r\n\r");
    assert!(reader.accepts(b'\n'));
    let reader = reader_after(b"HTTP/1.1 200 OK\r\nContent-Length: 1\r\n\r");
    assert!(reader.accepts(b'\n'));
}

#[test]
fn a_failed_read_is_handed_on() {
    let failed = io::Error::new(io::ErrorKind::WouldBlock, "later");
    match read_from_stream(reader_after(b"HTTP"), Some(Err(failed))) {
        ReadStep::Done(Err(err)) => assert_eq!(err.kind(), io::ErrorKind::WouldBlock),
        _ => panic!("no error"),
    }
}
