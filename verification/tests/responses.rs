//! Response serialization, error pages and the small library helpers.

use lhi::errors::{HttpError, ParseError};
use lhi::server::conn::{error_response, handler_error_response};
use lhi::server::response::{redirect, respond, set_content_length, ResponseContent, ResponseData};
use lhi::server::HttpSettings;
use lhi::{init_name, name};

#[test]
fn respond_announces_payload_length_plus_two() {
    let r = respond(
        ResponseContent::Text(String::from("hello")),
        "text/html",
        ResponseData::new(),
    );
    let expected = b"HTTP/1.1 200 OK\r\nserver: ltheinrich.de/lhi\r\ncontent-type: text/html; charset=utf-8\r\ncontent-length: 7\r\n\r\nhello\r\n";
    assert_eq!(r.as_slice(), &expected[..]);
}

#[test]
fn respond_emits_caller_headers_in_order() {
    let mut data = ResponseData::new().set_status("404 Not Found");
    data.headers.push(("x-one", "1"));
    data.headers.push(("x-two", "2"));
    let r = respond(ResponseContent::StaticByte(b"abc"), "text/plain", data);
    let expected = b"HTTP/1.1 404 Not Found\r\nserver: ltheinrich.de/lhi\r\ncontent-type: text/plain; charset=utf-8\r\nx-one: 1\r\nx-two: 2\r\ncontent-length: 5\r\n\r\nabc\r\n";
    assert_eq!(r.as_slice(), &expected[..]);
}

#[test]
fn respond_treats_every_content_kind_alike() {
    let a = respond(ResponseContent::Text(String::from("x")), "t", ResponseData::new());
    let b = respond(ResponseContent::Byte(vec![b'x']), "t", ResponseData::new());
    let c = respond(ResponseContent::StaticText("x"), "t", ResponseData::new());
    let d = respond(ResponseContent::StaticByte(b"x"), "t", ResponseData::new());
    assert_eq!(a, b);
    assert_eq!(b, c);
    assert_eq!(c, d);
}

#[test]
fn empty_payload_still_ends_with_crlf() {
    let r = respond(ResponseContent::StaticByte(b""), "text/plain", ResponseData::new());
    let expected = b"HTTP/1.1 200 OK\r\nserver: ltheinrich.de/lhi\r\ncontent-type: text/plain; charset=utf-8\r\ncontent-length: 2\r\n\r\n\r\n";
    assert_eq!(r.as_slice(), &expected[..]);
}

#[test]
fn content_length_header_bytes() {
    assert_eq!(set_content_length(5).as_slice(), b"\r\ncontent-length: 7\r\n\r\n");
    assert_eq!(set_content_length(0).as_slice(), b"\r\ncontent-length: 2\r\n\r\n");
}

#[test]
fn redirect_sets_status_and_location() {
    let r = redirect("/target");
    let page = "<html><head><title>Moved</title></head><body><h1>Moved</h1><p><a href=\"/target\">/target</a></p></body></html>";
    let expected = format!(
        "HTTP/1.1 303 See Other\r\nserver: ltheinrich.de/lhi\r\ncontent-type: text/html; charset=utf-8\r\nlocation: /target\r\ncontent-length: {}\r\n\r\n{}\r\n",
        page.len() + 2,
        page
    );
    assert_eq!(r.as_slice(), expected.as_bytes());
}

#[test]
fn framing_error_page_carries_message_and_version() {
    let r = error_response("Max header size exceeded", "1.0.0");
    let page = "<!DOCTYPE html><html><head><title>Max header size exceeded</title></head><body><h3>HTTP server error</h3><p>Max header size exceeded</p><hr><address>ltheinrich.de/lhi v1.0.0</address></body></html>";
    let expected = format!(
        "HTTP/1.1 400 Bad Request\r\nserver: ltheinrich.de/lhi\r\ncontent-type: text/html; charset=utf-8\r\ncontent-length: {}\r\n\r\n{}\r\n",
        page.len() + 2,
        page
    );
    assert_eq!(r.as_slice(), expected.as_bytes());
}

#[test]
fn handler_error_page_is_plain_text() {
    let r = handler_error_response("nope");
    let expected = b"HTTP/1.1 400 Bad Request\r\nserver: ltheinrich.de/lhi\r\ncontent-type: text/plain; charset=utf-8\r\ncontent-length: 6\r\n\r\nnope\r\n";
    assert_eq!(r.as_slice(), &expected[..]);
}

#[test]
fn settings_defaults() {
    let s = HttpSettings::new();
    assert_eq!(s.max_header_size, 8192);
    assert_eq!(s.max_body_size, 10485760);
    assert_eq!(s.header_buffer, 8192);
    assert_eq!(s.body_buffer, 8192);
    assert_eq!(s.header_read_attempts, 3);
    assert_eq!(s.body_read_attempts, 3);
}

#[test]
fn parse_error_messages() {
    assert_eq!(ParseError::HeaderTooLarge.message(), "Max header size exceeded");
    assert_eq!(ParseError::BodyTooLarge.message(), "Max body size exceeded");
    assert_eq!(ParseError::BodyReadStalled.message(), "Read body failed too often");
    assert_eq!(ParseError::EmptyHeader.message(), "Empty header");
    assert_eq!(ParseError::TransportError.message(), "Stream broken");
    assert_eq!(
        ParseError::InvalidContentLength.message(),
        "Content-Length is not of type usize"
    );
    assert_eq!(ParseError::MissingBoundary.message(), "post upload, but no boundary");
    assert_eq!(ParseError::MalformedMultipart.message(), "broken section in post body");
}

#[test]
fn http_error_wraps_a_message() {
    let e = HttpError::new("boom");
    assert_eq!(e.message(), "boom");
    let r: Result<u8, HttpError> = HttpError::from("bad");
    assert_eq!(r.unwrap_err().message(), "bad");
}

#[test]
fn library_name() {
    assert_eq!(name(), "lhi");
}

#[test]
fn manifest_name_extraction() {
    assert_eq!(
        init_name("name = \"mylib\"\nversion = \"0.1.0\"\n").as_slice(),
        b"mylib"
    );
    assert_eq!(init_name("version = \"0.1.0\"\n").as_slice(), b"lhi");
}
