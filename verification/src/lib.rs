//! Lightweight embeddable HTTP/1.1 server library.
//!
//! The request-framing, request-parsing and response-serialization core is
//! verified: every public function carries a contract that pins down its
//! result over a byte-sequence model of the wire protocol.  The surrounding
//! process (sockets, TLS, threads) is the embedding application's concern.

pub mod errors;
pub mod server;
pub mod text;

use vstd::prelude::*;

verus! {

use vstd::slice::slice_to_vec;
use vstd::string::StringExecFns;
use vstd::string::StringSliceAdditionalSpecFns;
use crate::text::{spec_split, lit, clean_of, split_bytes, strip_blanks, bytes_eq};

/// Name that a Cargo manifest assigns when it assigns none.
pub open spec fn default_name() -> Seq<u8> {
    lit("lhi")
}

/// The byte `"` that quotes a manifest value.
pub open spec fn quote_byte() -> Seq<u8> {
    seq![0x22u8]
}

/// The bytes of `name=`, announcing the package name.
pub open spec fn name_marker() -> Seq<u8> {
    seq![0x6eu8, 0x61u8, 0x6du8, 0x65u8, 0x3du8]
}

/// The package name that a Cargo manifest text declares: the content of the
/// last double-quoted block whose preceding block, with blanks and newlines
/// removed, reads exactly `name=`; the default name when there is none.
pub open spec fn spec_cargo_name(s: Seq<u8>) -> Seq<u8> {
    match name_candidate(spec_split(s, quote_byte()), spec_split(s, quote_byte()).len() as int) {
        Some(n) => n,
        None => default_name(),
    }
}

/// Candidate package name among the first `n` quote-separated blocks:
/// the last block preceded by a `name=` block.
pub open spec fn name_candidate(blocks: Seq<Seq<u8>>, n: int) -> Option<Seq<u8>>
    decreases n,
{
    if n <= 1 {
        None
    } else if clean_of(blocks[n - 2]) == name_marker() {
        Some(blocks[n - 1])
    } else {
        name_candidate(blocks, n - 1)
    }
}

/// Library name string.
pub fn name() -> (r: String)
    ensures
        r@ == "lhi"@,
{
    String::from_str("lhi")
}

/// Extract the package name declared by a Cargo manifest text, as bytes;
/// the blocks between `"` quotes are scanned for one announced by `name =`.
#[verifier::loop_isolation(false)]
pub fn init_name(cargo_toml: &str) -> (r: Vec<u8>)
    ensures
        r@ == spec_cargo_name(cargo_toml.spec_bytes()),
{
    let bytes = cargo_toml.as_bytes();
    let mut quote: Vec<u8> = Vec::new();
    quote.push(0x22);
    assert(quote@ =~= quote_byte());
    let mut marker: Vec<u8> = Vec::new();
    marker.push(0x6e);
    marker.push(0x61);
    marker.push(0x6d);
    marker.push(0x65);
    marker.push(0x3d);
    assert(marker@ =~= name_marker());
    let blocks = split_bytes(bytes, quote.as_slice());
    let ghost bs = spec_split(bytes@, quote_byte());
    assert(bs.len() >= 1);
    let mut cand: Option<Vec<u8>> = None;
    let mut i: usize = 1;
    while i < blocks.len()
        invariant
            1 <= i,
            i <= blocks.len() || i == 1,
            blocks.deep_view() == bs,
            match cand {
                Some(c) => name_candidate(bs, i as int) == Some(c@),
                None => name_candidate(bs, i as int) is None,
            },
        decreases blocks.len() - i,
    {
        proof {
            assert(bs[i as int - 1] =~= blocks@[i as int - 1]@);
            assert(bs[i as int] =~= blocks@[i as int]@);
        }
        let cleaned = strip_blanks(blocks[i - 1].as_slice());
        if bytes_eq(cleaned.as_slice(), marker.as_slice()) {
            assert(clean_of(bs[i as int - 1]) == name_marker());
            cand = Some(slice_to_vec(blocks[i].as_slice()));
        } else {
            assert(clean_of(bs[i as int - 1]) != name_marker());
        }
        i = i + 1;
    }
    assert(i as int == bs.len() || bs.len() <= 1);
    match cand {
        Some(c) => c,
        None => slice_to_vec("lhi".as_bytes()),
    }
}

} // verus!
