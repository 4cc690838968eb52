//! Header framing and body accumulation.

use lhi::errors::ParseError;
use lhi::server::framer::HeaderFramer;
use lhi::server::request::BodyReader;
use lhi::server::HttpSettings;

#[test]
fn frame_in_one_chunk_splits_header_and_leftover() {
    let settings = HttpSettings::new();
    let mut f = HeaderFramer::new(&settings);
    let input = b"GET / HTTP/1.1\r\nhost: x\r\n\r\nBODY";
    let (header, rest) = f.push_chunk(input).unwrap().unwrap();
    assert_eq!(header, "GET / HTTP/1.1\r\nhost: x\r\n\r\n");
    assert_eq!(rest.as_slice(), b"BODY");
    let mut joined = header.into_bytes();
    joined.extend_from_slice(&rest);
    assert_eq!(joined.as_slice(), &input[..]);
}

#[test]
fn frame_terminator_straddling_chunks() {
    let settings = HttpSettings::new();
    let mut f = HeaderFramer::new(&settings);
    assert!(f.push_chunk(b"GET / HTTP/1.1\r\nhost: x\r").unwrap().is_none());
    let (header, rest) = f.push_chunk(b"\n\r\nleft").unwrap().unwrap();
    assert_eq!(header, "GET / HTTP/1.1\r\nhost: x\r\n\r\n");
    assert_eq!(rest.as_slice(), b"left");
}

#[test]
fn frame_splits_at_first_terminator() {
    let settings = HttpSettings::new();
    let mut f = HeaderFramer::new(&settings);
    let (header, rest) = f.push_chunk(b"a\r\n\r\nb\r\n\r\nc").unwrap().unwrap();
    assert_eq!(header, "a\r\n\r\n");
    assert_eq!(rest.as_slice(), b"b\r\n\r\nc");
}

#[test]
fn oversized_header_fails_despite_terminator() {
    let mut settings = HttpSettings::new();
    settings.max_header_size = 10;
    let mut f = HeaderFramer::new(&settings);
    let r = f.push_chunk(b"GET / HTTP/1.1\r\n\r\n");
    assert_eq!(r.unwrap_err(), ParseError::HeaderTooLarge);
}

#[test]
fn header_within_ceiling_splits_despite_read_ahead() {
    let mut settings = HttpSettings::new();
    settings.max_header_size = 10;
    let mut f = HeaderFramer::new(&settings);
    let (header, rest) = f.push_chunk(b"ab\r\n\r\nBODYBYTES").unwrap().unwrap();
    assert_eq!(header, "ab\r\n\r\n");
    assert_eq!(rest.as_slice(), b"BODYBYTES");
}

#[test]
fn accumulated_header_within_ceiling_splits_despite_read_ahead() {
    let mut settings = HttpSettings::new();
    settings.max_header_size = 12;
    let mut f = HeaderFramer::new(&settings);
    assert!(f.push_chunk(b"abcdef").unwrap().is_none());
    let (header, rest) = f.push_chunk(b"gh\r\n\r\nXY").unwrap().unwrap();
    assert_eq!(header, "abcdefgh\r\n\r\n");
    assert_eq!(rest.as_slice(), b"XY");
}

#[test]
fn oversized_accumulation_fails() {
    let mut settings = HttpSettings::new();
    settings.max_header_size = 10;
    let mut f = HeaderFramer::new(&settings);
    assert!(f.push_chunk(b"abcdef").unwrap().is_none());
    let r = f.push_chunk(b"ghijk");
    assert_eq!(r.unwrap_err(), ParseError::HeaderTooLarge);
}

#[test]
fn closed_peer_mid_header_is_a_transport_error() {
    let settings = HttpSettings::new();
    let mut f = HeaderFramer::new(&settings);
    assert!(f.push_chunk(b"GET /").unwrap().is_none());
    let r = f.push_chunk(b"");
    assert_eq!(r.unwrap_err(), ParseError::TransportError);
}

#[test]
fn non_utf8_header_is_rejected() {
    let settings = HttpSettings::new();
    let mut f = HeaderFramer::new(&settings);
    let r = f.push_chunk(b"\xff\xfe\r\n\r\n");
    assert_eq!(r.unwrap_err(), ParseError::InvalidUtf8);
}

#[test]
fn body_reader_collects_chunks() {
    let settings = HttpSettings::new();
    let mut r = BodyReader::new(b"left".to_vec(), 8, &settings);
    assert!(r.needs_more());
    assert_eq!(r.chunk_size(), settings.body_buffer);
    r.push_chunk(b"over").unwrap();
    assert!(!r.needs_more());
    assert_eq!(r.into_body().as_slice(), b"leftover");
}

#[test]
fn stalled_body_fails_after_the_fourth_short_read() {
    let mut settings = HttpSettings::new();
    settings.body_read_attempts = 3;
    let mut r = BodyReader::new(Vec::new(), 100, &settings);
    assert!(r.push_chunk(b"").is_ok());
    assert!(r.push_chunk(b"").is_ok());
    assert!(r.push_chunk(b"").is_ok());
    assert_eq!(r.push_chunk(b"").unwrap_err(), ParseError::BodyReadStalled);
}

#[test]
fn full_reads_reset_the_stall_count() {
    let mut settings = HttpSettings::new();
    settings.body_read_attempts = 1;
    settings.body_buffer = 4;
    let mut r = BodyReader::new(Vec::new(), 100, &settings);
    assert!(r.push_chunk(b"ab").is_ok());
    assert!(r.push_chunk(b"full").is_ok());
    assert!(r.push_chunk(b"cd").is_ok());
    assert_eq!(r.push_chunk(b"ef").unwrap_err(), ParseError::BodyReadStalled);
}
