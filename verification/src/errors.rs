//! Error types of the library.

use vstd::prelude::*;

verus! {

use vstd::string::StringExecFns;

/// Failure while framing or parsing one request.
///
/// `MalformedUrlEncoded` belongs to the taxonomy but is never produced: the
/// key=value decoder is total, an absent `=` standing for an empty value.
#[derive(Clone, Copy, Debug, PartialEq, Eq, Structural)]
pub enum ParseError {
    /// The byte stream failed or the peer closed it mid-request.
    TransportError,
    /// The accumulated header bytes exceed `max_header_size`.
    HeaderTooLarge,
    /// The declared `content-length` exceeds `max_body_size`.
    BodyTooLarge,
    /// Header text or a form body is not valid UTF-8.
    InvalidUtf8,
    /// The `content-length` value is not an unsigned decimal that fits.
    InvalidContentLength,
    /// The header text is empty, so there is no request line.
    EmptyHeader,
    /// A multipart content type without a `boundary` parameter.
    MissingBoundary,
    /// A multipart body whose sections cannot be read.
    MalformedMultipart,
    /// A key=value body that cannot be read; not produced, see above.
    MalformedUrlEncoded,
    /// Too many short reads in a row while the body was incomplete.
    BodyReadStalled,
}

impl ParseError {
    /// Human-readable message, shown on the fallback error page.  One
    /// text stands for all malformed-multipart shapes (a section with too
    /// few lines and a section without a usable field name alike).
    pub fn message(&self) -> (r: String)
        ensures
            r@ == match *self {
                ParseError::TransportError => "Stream broken"@,
                ParseError::HeaderTooLarge => "Max header size exceeded"@,
                ParseError::BodyTooLarge => "Max body size exceeded"@,
                ParseError::InvalidUtf8 => "invalid utf-8"@,
                ParseError::InvalidContentLength => "Content-Length is not of type usize"@,
                ParseError::EmptyHeader => "Empty header"@,
                ParseError::MissingBoundary => "post upload, but no boundary"@,
                ParseError::MalformedMultipart => "broken section in post body"@,
                ParseError::MalformedUrlEncoded => "broken x-www-form-urlencoded parameters"@,
                ParseError::BodyReadStalled => "Read body failed too often"@,
            },
    {
        match *self {
            ParseError::TransportError => String::from_str("Stream broken"),
            ParseError::HeaderTooLarge => String::from_str("Max header size exceeded"),
            ParseError::BodyTooLarge => String::from_str("Max body size exceeded"),
            ParseError::InvalidUtf8 => String::from_str("invalid utf-8"),
            ParseError::InvalidContentLength => String::from_str("Content-Length is not of type usize"),
            ParseError::EmptyHeader => String::from_str("Empty header"),
            ParseError::MissingBoundary => String::from_str("post upload, but no boundary"),
            ParseError::MalformedMultipart => String::from_str("broken section in post body"),
            ParseError::MalformedUrlEncoded => String::from_str("broken x-www-form-urlencoded parameters"),
            ParseError::BodyReadStalled => String::from_str("Read body failed too often"),
        }
    }
}

/// General-purpose error string for the library's callers.
pub struct HttpError(String);

impl View for HttpError {
    type V = Seq<char>;

    closed spec fn view(&self) -> Seq<char> {
        self.0@
    }
}

impl HttpError {
    /// Wrap a message in an error.
    pub fn new(msg: &str) -> (r: Self)
        ensures
            r@ == msg@,
    {
        HttpError(String::from_str(msg))
    }

    /// A failed `Result` carrying a message.
    pub fn from<T>(msg: &str) -> (r: Result<T, Self>)
        ensures
            r matches Err(e) && e@ == msg@,
    {
        Err(Self::new(msg))
    }

    /// The wrapped message.
    pub fn message(&self) -> (r: &String)
        ensures
            r@ == self@,
    {
        &self.0
    }
}

} // verus!
