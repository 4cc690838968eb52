//! HTTP response serialization.
//!
//! [`respond`] emits the complete wire image of a response; its contract
//! gives that image byte by byte, including the engine's `content-length`
//! convention of payload length plus two, counting the trailing `\r\n`
//! always appended after the payload.

use vstd::prelude::*;

verus! {

use vstd::string::StringSliceAdditionalSpecFns;
use vstd::utf8::encode_utf8;
use crate::text::{lit, spec_dec, dec_bytes, push_bytes};

/// Response payload: owned or static, text or bytes.  The distinction only
/// affects ownership; the wire output depends on the payload bytes alone.
pub enum ResponseContent {
    Text(String),
    Byte(Vec<u8>),
    StaticText(&'static str),
    StaticByte(&'static [u8]),
}

/// The payload bytes a content value stands for.
pub open spec fn content_bytes(c: ResponseContent) -> Seq<u8> {
    match c {
        ResponseContent::Text(t) => encode_utf8(t@),
        ResponseContent::Byte(b) => b@,
        ResponseContent::StaticText(t) => t.spec_bytes(),
        ResponseContent::StaticByte(b) => b@,
    }
}

/// Status line text and caller-supplied headers, emitted in order and
/// without de-duplication.
pub struct ResponseData<'a> {
    /// Status line reason, e.g. `200 OK`.
    pub status: &'a str,
    /// Extra headers, serialized in insertion order.
    pub headers: Vec<(&'a str, &'a str)>,
}

impl<'a> ResponseData<'a> {
    /// Status `200 OK` and no extra headers.
    pub fn new() -> (r: Self)
        ensures
            r.status@ == "200 OK"@,
            r.headers@ == Seq::<(&'a str, &'a str)>::empty(),
    {
        let r = ResponseData { status: "200 OK", headers: Vec::new() };
        proof {
            assert(r.headers@ =~= Seq::<(&'a str, &'a str)>::empty());
        }
        r
    }

    /// Replace the status line reason.
    pub fn set_status(self, status: &'a str) -> (r: Self)
        ensures
            r.status == status,
            r.headers@ == self.headers@,
    {
        ResponseData { status, headers: self.headers }
    }
}

/// Byte image of the serialized caller headers, in order: `\r\nkey: value`
/// for each.
pub open spec fn spec_caller_headers(hs: Seq<(&str, &str)>) -> Seq<u8>
    decreases hs.len(),
{
    if hs.len() == 0 {
        Seq::empty()
    } else {
        spec_caller_headers(hs.drop_last()) + lit("\r\n") + hs.last().0.spec_bytes() + lit(": ")
            + hs.last().1.spec_bytes()
    }
}

/// Complete byte image of a response: status line, the fixed server header,
/// the content type with charset, the caller headers, a `content-length` of
/// the payload length plus two, a blank line, the payload, and a final
/// `\r\n`.
pub open spec fn spec_respond(
    payload: Seq<u8>,
    content_type: &str,
    status: &str,
    hs: Seq<(&str, &str)>,
) -> Seq<u8> {
    lit("HTTP/1.1 ") + status.spec_bytes() + lit("\r\nserver: ltheinrich.de/lhi\r\ncontent-type: ")
        + content_type.spec_bytes() + lit("; charset=utf-8") + spec_caller_headers(hs) + lit(
        "\r\ncontent-length: ",
    ) + spec_dec(payload.len() as int + 2) + lit("\r\n\r\n") + payload + lit("\r\n")
}

/// The `content-length` header bytes for a payload of `content_length`
/// bytes: the announced value is the payload length plus two.
pub fn set_content_length(content_length: usize) -> (r: Vec<u8>)
    requires
        content_length + 2 <= usize::MAX,
    ensures
        r@ == lit("\r\ncontent-length: ") + spec_dec(content_length as int + 2) + lit("\r\n\r\n"),
{
    let mut out: Vec<u8> = Vec::new();
    push_bytes(&mut out, "\r\ncontent-length: ".as_bytes());
    let digits = dec_bytes(content_length + 2);
    push_bytes(&mut out, digits.as_slice());
    push_bytes(&mut out, "\r\n\r\n".as_bytes());
    assert(out@ =~= lit("\r\ncontent-length: ") + spec_dec(content_length as int + 2) + lit(
        "\r\n\r\n",
    ));
    out
}

/// Serialize a complete HTTP response.
#[verifier::loop_isolation(false)]
pub fn respond(content: ResponseContent, content_type: &str, data: ResponseData) -> (r: Vec<u8>)
    requires
        content_bytes(content).len() + 2 <= usize::MAX,
    ensures
        r@ == spec_respond(content_bytes(content), content_type, data.status, data.headers@),
{
    let mut out: Vec<u8> = Vec::new();
    push_bytes(&mut out, "HTTP/1.1 ".as_bytes());
    push_bytes(&mut out, data.status.as_bytes());
    push_bytes(&mut out, "\r\nserver: ltheinrich.de/lhi\r\ncontent-type: ".as_bytes());
    push_bytes(&mut out, content_type.as_bytes());
    push_bytes(&mut out, "; charset=utf-8".as_bytes());
    let ghost pre = lit("HTTP/1.1 ") + data.status.spec_bytes() + lit(
        "\r\nserver: ltheinrich.de/lhi\r\ncontent-type: ",
    ) + content_type.spec_bytes() + lit("; charset=utf-8");
    assert(out@ =~= pre + spec_caller_headers(data.headers@.take(0)));
    let mut hi: usize = 0;
    while hi < data.headers.len()
        invariant
            hi <= data.headers@.len(),
            out@ == pre + spec_caller_headers(data.headers@.take(hi as int)),
        decreases data.headers@.len() - hi,
    {
        let (k, v) = data.headers[hi];
        push_bytes(&mut out, "\r\n".as_bytes());
        push_bytes(&mut out, k.as_bytes());
        push_bytes(&mut out, ": ".as_bytes());
        push_bytes(&mut out, v.as_bytes());
        proof {
            let t = data.headers@.take(hi as int + 1);
            assert(t.drop_last() =~= data.headers@.take(hi as int));
            assert(t.last() == data.headers@[hi as int]);
            assert(out@ =~= pre + spec_caller_headers(t));
        }
        hi = hi + 1;
    }
    assert(data.headers@.take(data.headers@.len() as int) =~= data.headers@);
    let ghost with_headers = pre + spec_caller_headers(data.headers@);
    assert(out@ =~= with_headers);
    let pb: &[u8] = match &content {
        ResponseContent::Text(t) => t.as_str().as_bytes(),
        ResponseContent::Byte(b) => b.as_slice(),
        ResponseContent::StaticText(t) => t.as_bytes(),
        ResponseContent::StaticByte(b) => b,
    };
    assert(pb@ == content_bytes(content));
    let n = pb.len();
    let cl = set_content_length(n);
    push_bytes(&mut out, cl.as_slice());
    push_bytes(&mut out, pb);
    push_bytes(&mut out, "\r\n".as_bytes());
    assert(out@ =~= spec_respond(content_bytes(content), content_type, data.status, data.headers@));
    out
}

/// The literal `\r\n` is the bytes CR LF.
proof fn lemma_crlf_lit()
    ensures
        lit("\r\n") =~= seq![0x0du8, 0x0au8],
{
    reveal_strlit("\r\n");
    assert(vstd::utf8::is_ascii_chars("\r\n"@));
    vstd::utf8::is_ascii_chars_encode_utf8("\r\n"@);
}

/// Content-length invariant: a response built from a payload of `n` bytes
/// announces a `content-length` of `n + 2`, and its byte stream ends with
/// the payload followed by exactly one `\r\n`: its last `n + 2` bytes are
/// the payload and CR LF.
pub proof fn lemma_respond_tail(
    payload: Seq<u8>,
    content_type: &str,
    status: &str,
    hs: Seq<(&str, &str)>,
)
    ensures
        ({
            let r = spec_respond(payload, content_type, status, hs);
            &&& r.len() >= payload.len() + 2
            &&& r.subrange(r.len() - payload.len() - 2, r.len() as int) == payload + seq![
                0x0du8,
                0x0au8,
            ]
        }),
{
    lemma_crlf_lit();
    let r = spec_respond(payload, content_type, status, hs);
    assert(r.subrange(r.len() - payload.len() - 2, r.len() as int) =~= payload + seq![
        0x0du8,
        0x0au8,
    ]);
}

/// HTML page that a redirect response carries, linking to `url`.
pub open spec fn spec_redirect_page(url: &str) -> Seq<u8> {
    lit("<html><head><title>Moved</title></head><body><h1>Moved</h1><p><a href=\"")
        + url.spec_bytes() + lit("\">") + url.spec_bytes() + lit("</a></p></body></html>")
}

/// A `303 See Other` response pointing at `url`, with a `location` header
/// and a small HTML page linking there.
pub fn redirect(url: &str) -> (r: Vec<u8>)
    requires
        spec_redirect_page(url).len() + 2 <= usize::MAX,
    ensures
        r@ == spec_respond(
            spec_redirect_page(url),
            "text/html",
            "303 See Other",
            seq![("location", url)],
        ),
{
    let mut page: Vec<u8> = Vec::new();
    push_bytes(
        &mut page,
        "<html><head><title>Moved</title></head><body><h1>Moved</h1><p><a href=\"".as_bytes(),
    );
    push_bytes(&mut page, url.as_bytes());
    push_bytes(&mut page, "\">".as_bytes());
    push_bytes(&mut page, url.as_bytes());
    push_bytes(&mut page, "</a></p></body></html>".as_bytes());
    assert(page@ =~= spec_redirect_page(url));
    let mut headers: Vec<(&str, &str)> = Vec::new();
    headers.push(("location", url));
    let data = ResponseData { status: "303 See Other", headers };
    assert(data.headers@ =~= seq![("location", url)]);
    respond(ResponseContent::Byte(page), "text/html", data)
}

} // verus!
