//! Header framing: accumulate transport chunks until the `\r\n\r\n`
//! terminator appears, then split the stream into header text and the body
//! bytes read ahead of it.
//!
//! The framer is a state machine: the connection loop reads a chunk from the
//! transport and hands it to [`HeaderFramer::push_chunk`] until the framer
//! either completes or fails.  Size enforcement, terminator detection and
//! the UTF-8 gate are all pinned down by `push_chunk`'s contract.

use vstd::prelude::*;

verus! {

use vstd::utf8::{encode_utf8, valid_utf8};
use crate::errors::ParseError;
use crate::server::HttpSettings;
use crate::text::{spec_find, match_at, lemma_find, find_sub, subvec, push_bytes, bytes_to_utf8};

/// The bytes `\r\n\r\n` that end an HTTP header block.
pub open spec fn marker() -> Seq<u8> {
    seq![0x0du8, 0x0au8, 0x0du8, 0x0au8]
}

/// Accumulates header bytes for one connection.
pub struct HeaderFramer {
    buf: Vec<u8>,
    max_header_size: usize,
}

impl HeaderFramer {
    /// Bytes accumulated so far without finding the terminator.
    pub closed spec fn buffered(&self) -> Seq<u8> {
        self.buf@
    }

    /// The `max_header_size` this framer enforces.
    pub closed spec fn max_size(&self) -> int {
        self.max_header_size as int
    }

    /// A fresh framer enforcing the configured header size ceiling.
    pub fn new(settings: &HttpSettings) -> (r: Self)
        ensures
            r.buffered() == Seq::<u8>::empty(),
            r.max_size() == settings.max_header_size,
    {
        HeaderFramer { buf: Vec::new(), max_header_size: settings.max_header_size }
    }

    /// Feed the next transport chunk.
    ///
    /// An empty chunk means the peer closed mid-header.  The accumulated
    /// bytes are scanned for the terminator first: when it is found,
    /// everything up to and including its first occurrence becomes the
    /// header text (after the UTF-8 gate) and the remaining bytes are the
    /// leftover body, however much was read ahead.  Only header-destined
    /// bytes count against the ceiling: a header longer than
    /// `max_header_size` fails with `HeaderTooLarge`, and so does
    /// terminator-free accumulation past the ceiling, so a peer that never
    /// sends the terminator cannot grow the buffer unboundedly; after such
    /// a failure the caller stops reading.
    pub fn push_chunk(&mut self, chunk: &[u8]) -> (r: Result<Option<(String, Vec<u8>)>, ParseError>)
        ensures
            final(self).max_size() == old(self).max_size(),
            chunk@.len() == 0 ==> r == Err::<Option<(String, Vec<u8>)>, ParseError>(
                ParseError::TransportError,
            ),
            ({
                let s = old(self).buffered() + chunk@;
                let i = spec_find(s, marker(), 0);
                &&& (chunk@.len() > 0 && i >= 0 && i + 4 > old(self).max_size()) ==> r == Err::<
                    Option<(String, Vec<u8>)>,
                    ParseError,
                >(ParseError::HeaderTooLarge)
                &&& (chunk@.len() > 0 && i >= 0 && i + 4 <= old(self).max_size() && valid_utf8(
                    s.take(i + 4),
                )) ==> (r matches Ok(Some((h, rest))) && encode_utf8(h@) == s.take(i + 4)
                    && rest@ == s.skip(i + 4))
                &&& (chunk@.len() > 0 && i >= 0 && i + 4 <= old(self).max_size() && !valid_utf8(
                    s.take(i + 4),
                )) ==> r == Err::<Option<(String, Vec<u8>)>, ParseError>(ParseError::InvalidUtf8)
                &&& (chunk@.len() > 0 && i < 0 && s.len() > old(self).max_size()) ==> r == Err::<
                    Option<(String, Vec<u8>)>,
                    ParseError,
                >(ParseError::HeaderTooLarge)
                &&& (chunk@.len() > 0 && i < 0 && s.len() <= old(self).max_size()) ==> (r
                    matches Ok(None) && final(self).buffered() == s)
            }),
    {
        let ghost s = self.buf@ + chunk@;
        if chunk.len() == 0 {
            assert(s =~= old(self).buffered());
            return Err(ParseError::TransportError);
        }
        push_bytes(&mut self.buf, chunk);
        assert(self.buf@ == s);
        let mut mk: Vec<u8> = Vec::new();
        mk.push(0x0d);
        mk.push(0x0a);
        mk.push(0x0d);
        mk.push(0x0a);
        assert(mk@ =~= marker());
        match find_sub(self.buf.as_slice(), mk.as_slice()) {
            Some(i) => {
                proof {
                    lemma_find(s, marker(), 0);
                }
                let bl = self.buf.len();
                assert(i + 4 <= bl);
                if i + 4 > self.max_header_size {
                    return Err(ParseError::HeaderTooLarge);
                }
                let head = subvec(self.buf.as_slice(), 0, i + 4);
                let rest = subvec(self.buf.as_slice(), i + 4, bl);
                assert(head@ == s.take(i + 4));
                assert(rest@ == s.skip(i + 4));
                match bytes_to_utf8(head) {
                    Some(h) => Ok(Some((h, rest))),
                    None => Err(ParseError::InvalidUtf8),
                }
            },
            None => {
                if self.buf.len() > self.max_header_size {
                    return Err(ParseError::HeaderTooLarge);
                }
                Ok(None)
            },
        }
    }
}

/// Framing reassembles the stream: header bytes and leftover concatenate
/// back to the bytes read, the header ends with the first terminator
/// occurrence, and nothing before it is a terminator.
pub proof fn lemma_frame_split(s: Seq<u8>)
    requires
        spec_find(s, marker(), 0) >= 0,
    ensures
        s.take(spec_find(s, marker(), 0) + 4) + s.skip(spec_find(s, marker(), 0) + 4) == s,
        s.take(spec_find(s, marker(), 0) + 4).subrange(
            spec_find(s, marker(), 0),
            spec_find(s, marker(), 0) + 4,
        ) == marker(),
        forall|j: int| 0 <= j < spec_find(s, marker(), 0) ==> !match_at(s, marker(), j),
{
    lemma_find(s, marker(), 0);
    let i = spec_find(s, marker(), 0);
    assert(s.take(i + 4) + s.skip(i + 4) =~= s);
    assert(s.take(i + 4).subrange(i, i + 4) =~= s.subrange(i, i + 4));
}

} // verus!
