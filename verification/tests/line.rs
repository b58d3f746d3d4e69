use minreq::line::{read_line, ByteRead, LineStep};
use minreq::Error;
use std::io;

fn line_of(reads: Vec<ByteRead>) -> (Result<String, Error>, usize) {
    let mut bytes = Vec::new();
    let mut count = 0;
    for read in reads {
        count += 1;
        match read_line(bytes, read) {
            LineStep::More(more) => bytes = more,
            LineStep::Done(line) => return (line, count),
        }
    }
    panic!("the line does not end");
}

fn reads_of(text: &[u8]) -> Vec<ByteRead> {
    let mut reads: Vec<ByteRead> = text.iter().map(|byte| Some(Ok(*byte))).collect();
    reads.push(None);
    reads
}

#[test]
fn a_line_is_read_back() {
    let (line, count) = line_of(reads_of("Grüße: 😀\r\nrest".as_bytes()));
    assert_eq!(line.unwrap(), "Grüße: 😀");
    assert_eq!(count, "Grüße: 😀\r\n".len());
}

#[test]
fn the_byte_before_the_newline_is_taken_off() {
    assert_eq!(line_of(reads_of(b"abc\n")).0.unwrap(), "ab");
    assert_eq!(line_of(reads_of(b"\n")).0.unwrap(), "");
    assert_eq!(line_of(reads_of(b"\r\n")).0.unwrap(), "");
    assert_eq!(line_of(reads_of(b"a\r\r\n")).0.unwrap(), "a\r");
}

#[test]
fn the_end_of_the_stream_ends_a_line() {
    assert_eq!(line_of(reads_of(b"abc\r")).0.unwrap(), "abc\r");
    assert_eq!(line_of(reads_of(b"")).0.unwrap(), "");
}

#[test]
fn a_line_that_is_not_utf8_is_refused() {
    let (line, count) = line_of(reads_of(b"a\xff\r\nb"));
    assert!(matches!(line, Err(Error::InvalidUtf8InResponse)));
    assert_eq!(count, 4);
    let (line, _) = line_of(reads_of(b"\xc3"));
    assert!(matches!(line, Err(Error::InvalidUtf8InResponse)));
}

#[test]
fn a_failed_read_ends_a_line() {
    let failed = io::Error::new(io::ErrorKind::ConnectionReset, "reset");
    let (line, count) = line_of(vec![Some(Ok(b'a')), Some(Err(failed)), Some(Ok(b'b'))]);
    assert_eq!(count, 2);
    match line {
        Err(Error::IoError(err)) => assert_eq!(err.kind(), io::ErrorKind::ConnectionReset),
        _ => panic!("no error"),
    }
}
