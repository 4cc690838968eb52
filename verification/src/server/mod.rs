//! HTTP server core: header framing, request parsing, response building.

use vstd::prelude::*;

pub mod conn;
pub mod framer;
pub mod params;
pub mod request;
pub mod response;

pub use conn::{error_response, handler_error_response};
pub use framer::HeaderFramer;
pub use params::{parse_parameters, KvMap};
pub use request::{
    parse_post, parse_post_upload, required_body_size, BodyReader, HttpMethod, HttpRequest,
};
pub use response::{redirect, respond, set_content_length, ResponseContent, ResponseData};

verus! {

/// Limits and buffer sizes that bound one connection's memory and patience.
#[derive(Clone, Debug)]
pub struct HttpSettings {
    /// Hard ceiling on accumulated header bytes.
    pub max_header_size: usize,
    /// Hard ceiling on a declared body length.
    pub max_body_size: usize,
    /// Bytes requested per read while framing the header.
    pub header_buffer: usize,
    /// Bytes requested per read while filling the body.
    pub body_buffer: usize,
    /// Retry budget for short reads while framing the header.
    pub header_read_attempts: usize,
    /// Retry budget for short reads while filling the body.
    pub body_read_attempts: usize,
}

impl HttpSettings {
    /// All limits positive, buffers no larger than the sizes they fill.
    pub open spec fn valid(&self) -> bool {
        &&& self.max_header_size > 0
        &&& self.max_body_size > 0
        &&& self.header_buffer > 0
        &&& self.body_buffer > 0
        &&& self.header_read_attempts > 0
        &&& self.body_read_attempts > 0
        &&& self.header_buffer <= self.max_header_size
        &&& self.body_buffer <= self.max_body_size
    }

    /// Default limits.
    pub fn new() -> (r: Self)
        ensures
            r.max_header_size == 8192,
            r.max_body_size == 10485760,
            r.header_buffer == 8192,
            r.body_buffer == 8192,
            r.header_read_attempts == 3,
            r.body_read_attempts == 3,
            r.valid(),
    {
        HttpSettings {
            max_header_size: 8192,
            max_body_size: 10485760,
            header_buffer: 8192,
            body_buffer: 8192,
            header_read_attempts: 3,
            body_read_attempts: 3,
        }
    }
}

} // verus!
