//! Request parsing: request line, headers, query and POST parameters.

use lhi::errors::ParseError;
use lhi::server::request::{HttpMethod, HttpRequest, required_body_size};
use lhi::server::HttpSettings;

#[test]
fn get_with_query() {
    let settings = HttpSettings::new();
    let req = HttpRequest::from("GET /?file=test.txt HTTP/1.1\r\nhost: x\r\n\r\n", Vec::new(), &settings)
        .unwrap();
    assert_eq!(*req.method(), HttpMethod::GET);
    assert_eq!(req.url().as_slice(), b"/");
    assert_eq!(req.get().len(), 1);
    assert_eq!(req.get().get(b"file").unwrap().as_slice(), b"test.txt");
    assert_eq!(req.post().len(), 0);
    assert_eq!(req.body().len(), 0);
    assert_eq!(req.headers().get(b"host").unwrap().as_slice(), b"x");
}

#[test]
fn get_without_query_has_no_params() {
    let settings = HttpSettings::new();
    let req = HttpRequest::from("GET / HTTP/1.1\r\nhost: x\r\n\r\n", Vec::new(), &settings).unwrap();
    assert_eq!(req.url().as_slice(), b"/");
    assert_eq!(req.get().len(), 0);
}

#[test]
fn missing_url_defaults_to_root() {
    let settings = HttpSettings::new();
    let req = HttpRequest::from("GET\r\n\r\n", Vec::new(), &settings).unwrap();
    assert_eq!(req.url().as_slice(), b"/");
    assert_eq!(*req.method(), HttpMethod::GET);
}

#[test]
fn unknown_method_reads_as_get() {
    let settings = HttpSettings::new();
    let req = HttpRequest::from("BREW /pot HTTP/1.1\r\n\r\n", Vec::new(), &settings).unwrap();
    assert_eq!(*req.method(), HttpMethod::GET);
    assert_eq!(req.url().as_slice(), b"/pot");
}

#[test]
fn header_names_lowercased_and_trimmed() {
    let settings = HttpSettings::new();
    let req = HttpRequest::from(
        "GET / HTTP/1.1\r\n  Host : example.com  \r\nX-Thing: 1\r\n\r\n",
        Vec::new(),
        &settings,
    )
    .unwrap();
    assert_eq!(req.headers().get(b"host").unwrap().as_slice(), b"example.com");
    assert_eq!(req.headers().get(b"x-thing").unwrap().as_slice(), b"1");
}

#[test]
fn duplicate_headers_last_write_wins() {
    let settings = HttpSettings::new();
    let req = HttpRequest::from("GET / HTTP/1.1\r\nx: 1\r\nx: 2\r\n\r\n", Vec::new(), &settings)
        .unwrap();
    assert_eq!(req.headers().len(), 1);
    assert_eq!(req.headers().get(b"x").unwrap().as_slice(), b"2");
}

#[test]
fn empty_header_is_rejected() {
    let settings = HttpSettings::new();
    let r = HttpRequest::from("", Vec::new(), &settings);
    assert_eq!(r.unwrap_err(), ParseError::EmptyHeader);
}

#[test]
fn bad_content_length_is_rejected() {
    let settings = HttpSettings::new();
    let r = HttpRequest::from("GET / HTTP/1.1\r\ncontent-length: abc\r\n\r\n", Vec::new(), &settings);
    assert_eq!(r.unwrap_err(), ParseError::InvalidContentLength);
}

#[test]
fn oversized_content_length_is_rejected_before_any_read() {
    let settings = HttpSettings::new();
    assert_eq!(settings.max_body_size, 10485760);
    let header = "POST / HTTP/1.1\r\ncontent-length: 1000000000\r\n\r\n";
    assert_eq!(
        required_body_size(header, &settings).unwrap_err(),
        ParseError::BodyTooLarge
    );
    let r = HttpRequest::from(header, Vec::new(), &settings);
    assert_eq!(r.unwrap_err(), ParseError::BodyTooLarge);
}

#[test]
fn required_body_size_reads_content_length() {
    let settings = HttpSettings::new();
    assert_eq!(
        required_body_size("POST / HTTP/1.1\r\ncontent-length: 42\r\n\r\n", &settings).unwrap(),
        42
    );
    assert_eq!(required_body_size("GET / HTTP/1.1\r\n\r\n", &settings).unwrap(), 0);
}

#[test]
fn body_kept_only_with_content_length() {
    let settings = HttpSettings::new();
    let req = HttpRequest::from(
        "GET / HTTP/1.1\r\ncontent-length: 4\r\n\r\n",
        b"wxyz".to_vec(),
        &settings,
    )
    .unwrap();
    assert_eq!(req.body().as_slice(), b"wxyz");
    let req = HttpRequest::from("GET / HTTP/1.1\r\n\r\n", b"wxyz".to_vec(), &settings).unwrap();
    assert_eq!(req.body().len(), 0);
}

#[test]
fn post_urlencoded_body() {
    let settings = HttpSettings::new();
    let req = HttpRequest::from(
        "POST /form HTTP/1.1\r\ncontent-length: 7\r\n\r\n",
        b"a=1&b=2".to_vec(),
        &settings,
    )
    .unwrap();
    assert_eq!(*req.method(), HttpMethod::POST);
    assert_eq!(req.post().len(), 2);
    assert_eq!(req.post().get(b"a").unwrap().as_slice(), b"1");
    assert_eq!(req.post().get(b"b").unwrap().as_slice(), b"2");
}

#[test]
fn post_body_must_be_utf8() {
    let settings = HttpSettings::new();
    let r = HttpRequest::from(
        "POST / HTTP/1.1\r\ncontent-length: 2\r\n\r\n",
        vec![0xff, 0xfe],
        &settings,
    );
    assert_eq!(r.unwrap_err(), ParseError::InvalidUtf8);
}

#[test]
fn multipart_without_boundary_is_rejected() {
    let settings = HttpSettings::new();
    let r = HttpRequest::from(
        "POST / HTTP/1.1\r\ncontent-type: multipart/form-data\r\ncontent-length: 4\r\n\r\n",
        b"body".to_vec(),
        &settings,
    );
    assert_eq!(r.unwrap_err(), ParseError::MissingBoundary);
}
