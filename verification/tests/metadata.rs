use minreq::response::metadata::{
    header_can_split, parse_header, parse_status_line, read_metadata, MetadataState, MetadataStep,
    ResponseMetadata,
};
use minreq::{Error, ResponseLazy};
use std::io;

fn head_of(lines: &[&str]) -> Result<ResponseMetadata, Error> {
    let mut state = MetadataState::StatusLine;
    for (i, line) in lines.iter().enumerate() {
        assert!(i == 0 || header_can_split(line));
        match read_metadata(state, Ok(line.to_string())) {
            MetadataStep::More(more) => state = more,
            MetadataStep::Done(metadata) => return metadata,
        }
    }
    panic!("the head does not end");
}

fn status(line: &str) -> (i32, String) {
    parse_status_line(line.to_string())
}

fn header(line: &str) -> Option<(String, String)> {
    assert!(header_can_split(line));
    parse_header(line.to_string())
}

#[test]
fn a_status_line_gives_the_code_and_the_whole_reason() {
    assert_eq!(status("HTTP/1.1 200 OK"), (200, "OK".to_string()));
    assert_eq!(
        status("HTTP/1.1 404 Not Found"),
        (404, "Not Found".to_string())
    );
    assert_eq!(status("HTTP/1.1 200 "), (200, "".to_string()));
    assert_eq!(status(" -7  two"), (-7, " two".to_string()));
}

#[test]
fn a_missing_status_counts_as_503() {
    let missing = (503, "Server did not provide a status line".to_string());
    for line in ["", "HTTP/1.1", "HTTP/1.1 200", "HTTP/1.1 abc OK", "HTTP/1.1  200 OK"].iter() {
        assert_eq!(status(line), missing, "{:?}", line);
    }
    assert_eq!(status("HTTP/1.1 2147483648 OK"), missing);
}

#[test]
fn a_header_is_split_at_its_first_colon() {
    let pair = |name: &str, value: &str| Some((name.to_string(), value.to_string()));
    assert_eq!(header("Host: example.org:80"), pair("Host", "example.org:80"));
    assert_eq!(header("Host:example.org"), pair("Host", "xample.org"));
    assert_eq!(header("A: "), pair("A", ""));
    assert_eq!(header(": b"), pair("", "b"));
    assert_eq!(header("Größe: ü"), pair("Größe", "ü"));
    assert_eq!(header("no colon"), None);
}

#[test]
fn a_colon_needs_a_character_of_one_byte_behind_it() {
    assert!(header_can_split("A: b"));
    assert!(header_can_split("A:b"));
    assert!(header_can_split("no colon"));
    assert!(header_can_split(""));
    assert!(!header_can_split("A:"));
    assert!(!header_can_split("A:é"));
}

#[test]
fn the_head_is_read_to_its_empty_line() {
    let head = head_of(&[
        "HTTP/1.1 404 Not Found",
        "Content-Type: text/html",
        "no colon",
        "Content-Length: 12",
        "",
        "Behind: the head",
    ])
    .unwrap();
    assert_eq!(head.status_code, 404);
    assert_eq!(head.reason_phrase, "Not Found");
    assert_eq!(head.headers.len(), 2);
    assert_eq!(head.headers.get("Content-Type").unwrap(), "text/html");
    assert_eq!(head.headers.get("Content-Length").unwrap(), "12");
    assert!(head.headers.get("content-length").is_none());
    assert!(!head.chunked);
    assert_eq!(head.content_length, Some(12));
}

#[test]
fn the_later_of_two_headers_of_one_name_counts() {
    let head = head_of(&["HTTP/1.1 200 OK", "A: first", "a: other", "A: second", ""]).unwrap();
    assert_eq!(head.headers.len(), 2);
    assert_eq!(head.headers.get("A").unwrap(), "second");
    assert_eq!(head.headers.get("a").unwrap(), "other");
    assert_eq!(head.content_length, None);
}

#[test]
fn case_and_white_space_make_no_difference() {
    let head = head_of(&["HTTP/1.1 200 OK", " cONTENT-lENGTH :  7\t", ""]).unwrap();
    assert_eq!(head.content_length, Some(7));
    let head = head_of(&["HTTP/1.1 200 OK", "TRANSFER-encoding:  ChunKed ", ""]).unwrap();
    assert!(head.chunked);
    assert_eq!(head.content_length, Some(0));
}

#[test]
fn lower_case_is_that_of_unicode() {
    // The Kelvin sign has the letter k as its lower case.
    let head = head_of(&["HTTP/1.1 200 OK", "Transfer-Encoding: chun\u{212a}ed", ""]).unwrap();
    assert!(head.chunked);
    let head = head_of(&["HTTP/1.1 200 OK", "Transfer-Encoding: chün\u{212a}ed", ""]).unwrap();
    assert!(!head.chunked);
}

#[test]
fn chunks_come_before_any_length() {
    for lines in [
        ["HTTP/1.1 200 OK", "Content-Length: 5", "Transfer-Encoding: chunked", ""],
        ["HTTP/1.1 200 OK", "Transfer-Encoding: chunked", "Content-Length: 5", ""],
        ["HTTP/1.1 200 OK", "Transfer-Encoding: chunked", "Content-Length: x", ""],
    ]
    .iter()
    {
        let head = head_of(lines).unwrap();
        assert!(head.chunked);
        assert_eq!(head.content_length, Some(0));
        assert_eq!(head.headers.len(), 2);
    }
    let head = head_of(&["HTTP/1.1 200 OK", "Transfer-Encoding: gzip, chunked", ""]).unwrap();
    assert!(!head.chunked);
}

#[test]
fn the_first_length_counts() {
    let head = head_of(&[
        "HTTP/1.1 200 OK",
        "Content-Length: 5",
        "Content-Length: 9",
        "content-length: x",
        "",
    ])
    .unwrap();
    assert_eq!(head.content_length, Some(5));
    assert_eq!(head.headers.get("Content-Length").unwrap(), "9");
    let head = head_of(&["HTTP/1.1 200 OK", "Content-Length: +5", ""]).unwrap();
    assert_eq!(head.content_length, Some(5));
}

#[test]
fn a_malformed_length_is_refused() {
    for line in [
        "Content-Length: ",
        "Content-Length: x",
        "Content-Length: -1",
        "Content-Length: 1 2",
        "Content-Length: 18446744073709551616",
    ]
    .iter()
    {
        let head = head_of(&["HTTP/1.1 200 OK", line, ""]);
        assert!(matches!(head, Err(Error::MalformedContentLength)), "{}", line);
    }
}

#[test]
fn a_malformed_length_before_chunks_is_refused() {
    let head = head_of(&["HTTP/1.1 200 OK", "Content-Length: x", "Transfer-Encoding: chunked", ""]);
    assert!(matches!(head, Err(Error::MalformedContentLength)));
}

#[test]
fn a_line_that_could_not_be_read_ends_the_head() {
    let failed = Err(Error::IoError(io::Error::new(io::ErrorKind::Other, "gone")));
    let step = read_metadata(MetadataState::StatusLine, failed);
    assert!(matches!(step, MetadataStep::Done(Err(Error::IoError(_)))));
    let state = match read_metadata(MetadataState::StatusLine, Ok(String::new())) {
        MetadataStep::More(state) => state,
        MetadataStep::Done(_) => panic!("the status line is no end"),
    };
    let step = read_metadata(state, Err(Error::InvalidUtf8InResponse));
    assert!(matches!(step, MetadataStep::Done(Err(Error::InvalidUtf8InResponse))));
}

#[test]
fn a_lazy_response_has_what_its_head_says() {
    let head = head_of(&["HTTP/1.1 404 Not Found", "Transfer-Encoding: chunked", ""]);
    let lazy = ResponseLazy::from_stream(head).ok().unwrap();
    assert_eq!(lazy.status_code, 404);
    assert_eq!(lazy.reason_phrase, "Not Found");
    assert_eq!(lazy.headers.get("Transfer-Encoding").unwrap(), "chunked");
    assert!(lazy.body.chunked);
    assert!(!lazy.body.chunks_done);
    assert_eq!(lazy.body.content_length, Some(0));
    let failed = ResponseLazy::from_stream(Err(Error::MalformedContentLength));
    assert!(matches!(failed, Err(Error::MalformedContentLength)));
}
