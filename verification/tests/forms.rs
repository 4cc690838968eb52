//! The key=value decoder and the multipart decoder.

use lhi::errors::ParseError;
use lhi::server::params::parse_parameters;
use lhi::server::request::{parse_post_upload, HttpRequest};
use lhi::server::HttpSettings;

#[test]
fn query_round_trip() {
    let m = parse_parameters(b"a=1&b=two words");
    assert_eq!(m.len(), 2);
    assert_eq!(m.get(b"a").unwrap().as_slice(), b"1");
    assert_eq!(m.get(b"b").unwrap().as_slice(), b"two words");
}

#[test]
fn query_keys_lowercased_and_trimmed() {
    let m = parse_parameters(b" KEY = value ");
    assert_eq!(m.len(), 1);
    assert_eq!(m.get(b"key").unwrap().as_slice(), b"value");
}

#[test]
fn query_bare_flag_has_empty_value() {
    let m = parse_parameters(b"flag");
    assert_eq!(m.len(), 1);
    assert_eq!(m.get(b"flag").unwrap().as_slice(), b"");
}

#[test]
fn query_duplicate_keys_last_write_wins() {
    let m = parse_parameters(b"a=1&a=2");
    assert_eq!(m.len(), 1);
    assert_eq!(m.get(b"a").unwrap().as_slice(), b"2");
}

#[test]
fn query_value_keeps_later_equals_signs() {
    let m = parse_parameters(b"k=a=b");
    assert_eq!(m.get(b"k").unwrap().as_slice(), b"a=b");
}

#[test]
fn multipart_two_fields() {
    let body = b"--XYZ\r\nContent-Disposition: form-data; name=\"a\"\r\n\r\n1\r\n--XYZ\r\nContent-Disposition: form-data; name=\"b\"\r\n\r\nhello world\r\n--XYZ--\r\n";
    let m = parse_post_upload(body, b"XYZ").unwrap();
    assert_eq!(m.len(), 2);
    assert_eq!(m.get(b"a").unwrap().as_slice(), b"1");
    assert_eq!(m.get(b"b").unwrap().as_slice(), b"hello world");
}

#[test]
fn multipart_value_keeps_embedded_crlf() {
    let body = b"--B\r\nContent-Disposition: form-data; name=\"f\"\r\n\r\nline1\r\nline2\r\n--B--\r\n";
    let m = parse_post_upload(body, b"B").unwrap();
    assert_eq!(m.get(b"f").unwrap().as_slice(), b"line1\r\nline2");
}

#[test]
fn multipart_missing_name_is_malformed() {
    let body = b"--XYZ\r\nno field here\r\n\r\nv\r\n--XYZ--\r\n";
    let r = parse_post_upload(body, b"XYZ");
    assert_eq!(r.unwrap_err(), ParseError::MalformedMultipart);
}

#[test]
fn multipart_field_names_lowercased() {
    let body = b"--B\r\nContent-Disposition: form-data; name=\"NAME\"\r\n\r\nv\r\n--B--\r\n";
    let m = parse_post_upload(body, b"B").unwrap();
    assert_eq!(m.get(b"name").unwrap().as_slice(), b"v");
}

#[test]
fn multipart_through_request() {
    let settings = HttpSettings::new();
    let body = b"--XYZ\r\nContent-Disposition: form-data; name=\"a\"\r\n\r\n1\r\n--XYZ\r\nContent-Disposition: form-data; name=\"b\"\r\n\r\nhello world\r\n--XYZ--\r\n".to_vec();
    let header = format!(
        "POST /up HTTP/1.1\r\ncontent-type: multipart/form-data; boundary=XYZ\r\ncontent-length: {}\r\n\r\n",
        body.len()
    );
    let req = HttpRequest::from(&header, body, &settings).unwrap();
    assert_eq!(req.post().len(), 2);
    assert_eq!(req.post().get(b"a").unwrap().as_slice(), b"1");
    assert_eq!(req.post().get(b"b").unwrap().as_slice(), b"hello world");
}

#[test]
fn map_entries_are_walkable() {
    let m = parse_parameters(b"a=1&b=2");
    let mut keys: Vec<Vec<u8>> = Vec::new();
    for i in 0..m.len() {
        let (k, v) = m.entry(i);
        keys.push(k.clone());
        assert!(!v.is_empty());
    }
    assert!(keys.contains(&b"a".to_vec()));
    assert!(keys.contains(&b"b".to_vec()));
}
