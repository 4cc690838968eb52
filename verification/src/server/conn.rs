//! Connection-session decisions that need no socket: the fallback
//! responses of a session whose header framing or handler failed.  The
//! embedding application drives the transport and calls these to build
//! the `400 Bad Request` replies the session writes back.

use vstd::prelude::*;

verus! {

use vstd::slice::slice_to_vec;
use vstd::string::StringSliceAdditionalSpecFns;
use vstd::utf8::encode_utf8;
use crate::server::response::{respond, spec_respond, ResponseContent, ResponseData};
use crate::text::{lit, push_bytes};

/// HTML error page shown when framing or parsing fails: the message as
/// title and body, and the library version in the footer.
pub open spec fn spec_error_page(message: Seq<char>, version: Seq<char>) -> Seq<u8> {
    lit("<!DOCTYPE html><html><head><title>") + encode_utf8(message) + lit(
        "</title></head><body><h3>HTTP server error</h3><p>",
    ) + encode_utf8(message) + lit("</p><hr><address>ltheinrich.de/lhi v") + encode_utf8(version)
        + lit("</address></body></html>")
}

/// The `400 Bad Request` HTML response a session writes when header
/// framing fails, carrying the failure message and the library version.
pub fn error_response(message: &str, version: &str) -> (r: Vec<u8>)
    requires
        spec_error_page(message@, version@).len() + 2 <= usize::MAX,
    ensures
        r@ == spec_respond(
            spec_error_page(message@, version@),
            "text/html",
            "400 Bad Request",
            Seq::empty(),
        ),
{
    let mut page: Vec<u8> = Vec::new();
    push_bytes(&mut page, "<!DOCTYPE html><html><head><title>".as_bytes());
    push_bytes(&mut page, message.as_bytes());
    push_bytes(&mut page, "</title></head><body><h3>HTTP server error</h3><p>".as_bytes());
    push_bytes(&mut page, message.as_bytes());
    push_bytes(&mut page, "</p><hr><address>ltheinrich.de/lhi v".as_bytes());
    push_bytes(&mut page, version.as_bytes());
    push_bytes(&mut page, "</address></body></html>".as_bytes());
    assert(page@ =~= spec_error_page(message@, version@));
    let data = ResponseData::new().set_status("400 Bad Request");
    let r = respond(ResponseContent::Byte(page), "text/html", data);
    assert(r@ =~= spec_respond(
        spec_error_page(message@, version@),
        "text/html",
        "400 Bad Request",
        Seq::empty(),
    ));
    r
}

/// The `400 Bad Request` plain-text response a session writes when the
/// caller's handler fails, carrying the handler's message.
pub fn handler_error_response(message: &str) -> (r: Vec<u8>)
    requires
        message.spec_bytes().len() + 2 <= usize::MAX,
    ensures
        r@ == spec_respond(message.spec_bytes(), "text/plain", "400 Bad Request", Seq::empty()),
{
    let body = slice_to_vec(message.as_bytes());
    let data = ResponseData::new().set_status("400 Bad Request");
    let r = respond(ResponseContent::Byte(body), "text/plain", data);
    assert(r@ =~= spec_respond(
        message.spec_bytes(),
        "text/plain",
        "400 Bad Request",
        Seq::empty(),
    ));
    r
}

} // verus!
