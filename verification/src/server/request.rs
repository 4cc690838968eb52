//! HTTP request parsing: request line, header fields, query parameters,
//! body accumulation and POST bodies in both form encodings.

use vstd::prelude::*;

verus! {

use vstd::slice::slice_to_vec;
use vstd::string::StringSliceAdditionalSpecFns;
use vstd::utf8::valid_utf8;
use crate::errors::ParseError;
use crate::server::HttpSettings;
use crate::server::params::{
    KvMap, kv_get, kv_agrees, map_get, spec_params, parse_parameters, eq_byte,
};
use crate::text::{
    lit, spec_find, spec_split, spec_splitn, spec_lower, spec_trim, spec_starts_with,
    spec_ends_with, spec_parse_usize, lemma_find, find_sub, split_bytes, splitn_bytes, trim_bytes,
    lower_bytes, bytes_eq, starts_with_bytes, ends_with_bytes, parse_usize_bytes, subvec,
    push_bytes, is_utf8,
};

/// The byte of a space, separating request-line tokens.
pub open spec fn sp() -> Seq<u8> {
    seq![0x20u8]
}

/// The byte `?`, separating a path from its query string.
pub open spec fn qmark() -> Seq<u8> {
    seq![0x3fu8]
}

/// The byte `:`, separating a header name from its value.
pub open spec fn colon() -> Seq<u8> {
    seq![0x3au8]
}

/// The byte `;`, separating content-type parameters.
pub open spec fn semi() -> Seq<u8> {
    seq![0x3bu8]
}

/// The byte `\n`, ending a header line.
pub open spec fn lf() -> Seq<u8> {
    seq![0x0au8]
}

/// The bytes `\r\n`.
pub open spec fn crlf() -> Seq<u8> {
    seq![0x0du8, 0x0au8]
}

/// The bytes `--` that open a multipart delimiter.
pub open spec fn dashes() -> Seq<u8> {
    seq![0x2du8, 0x2du8]
}

/// The bytes of `boundary=`, announcing the multipart boundary.
pub open spec fn boundary_marker() -> Seq<u8> {
    seq![0x62u8, 0x6fu8, 0x75u8, 0x6eu8, 0x64u8, 0x61u8, 0x72u8, 0x79u8, 0x3du8]
}

/// The bytes of `name=`, announcing a multipart field name.
pub open spec fn name_marker() -> Seq<u8> {
    seq![0x6eu8, 0x61u8, 0x6du8, 0x65u8, 0x3du8]
}

/// A line with a trailing `\r` removed.
pub open spec fn strip_cr(l: Seq<u8>) -> Seq<u8> {
    if l.len() > 0 && l.last() == 0x0d {
        l.drop_last()
    } else {
        l
    }
}

/// Header text split into lines on `\n`, each line's trailing `\r`
/// removed.  There is always at least one line.
pub open spec fn spec_lines(s: Seq<u8>) -> Seq<Seq<u8>> {
    spec_split(s, lf()).map_values(|l: Seq<u8>| strip_cr(l))
}

/// HTTP request method.  Any request-line token other than `POST` is read
/// as `GET`: the lenient default, not an error.
#[derive(Clone, Copy, Debug, PartialEq, Eq, Structural)]
pub enum HttpMethod {
    GET,
    POST,
}

/// Method named by a request line.
pub open spec fn line_method(line0: Seq<u8>) -> HttpMethod {
    if spec_split(line0, sp())[0] == lit("POST") {
        HttpMethod::POST
    } else {
        HttpMethod::GET
    }
}

/// Path named by a request line: the second token up to a `?`, or `/` when
/// the token is missing.
pub open spec fn line_url(line0: Seq<u8>) -> Seq<u8> {
    let toks = spec_split(line0, sp());
    if toks.len() >= 2 {
        spec_splitn(toks[1], qmark(), 2)[0]
    } else {
        lit("/")
    }
}

/// Query string of a request line: what follows the first `?` of the
/// second token, if anything does.
pub open spec fn line_query(line0: Seq<u8>) -> Option<Seq<u8>> {
    let toks = spec_split(line0, sp());
    if toks.len() >= 2 {
        let u = spec_splitn(toks[1], qmark(), 2);
        if u.len() >= 2 {
            Some(u[1])
        } else {
            None
        }
    } else {
        None
    }
}

/// Header map of the first `n` lines, line 0 (the request line) excluded:
/// each line is split on its first `:`, the name trimmed and lower-cased,
/// the value trimmed; lines without `:` are skipped and later duplicates
/// overwrite earlier ones.
pub open spec fn spec_headers_upto(lines: Seq<Seq<u8>>, n: int) -> Map<Seq<u8>, Seq<u8>>
    decreases n,
{
    if n <= 1 {
        Map::empty()
    } else {
        let m = spec_headers_upto(lines, n - 1);
        let l = lines[n - 1];
        let i = spec_find(l, colon(), 0);
        if i >= 0 {
            m.insert(
                spec_lower(spec_trim(l.subrange(0, i))),
                spec_trim(l.subrange(i + 1, l.len() as int)),
            )
        } else {
            m
        }
    }
}

/// Header map of a split header text.
pub open spec fn spec_headers(lines: Seq<Seq<u8>>) -> Map<Seq<u8>, Seq<u8>> {
    spec_headers_upto(lines, lines.len() as int)
}

/// The header maps have finitely many keys.
pub proof fn lemma_headers_upto_finite(lines: Seq<Seq<u8>>, n: int)
    ensures
        spec_headers_upto(lines, n).dom().finite(),
    decreases n,
{
    if n > 1 {
        lemma_headers_upto_finite(lines, n - 1);
    }
}

/// What a `content-length` header value means under a body size ceiling:
/// no header declares no body; otherwise the value must read as an
/// unsigned decimal no larger than the ceiling.
pub open spec fn spec_content_length(clv: Option<Seq<u8>>, max_body: int) -> Result<
    Option<int>,
    ParseError,
> {
    match clv {
        None => Ok(None),
        Some(v) => match spec_parse_usize(v) {
            None => Err(ParseError::InvalidContentLength),
            Some(n) => if n > max_body {
                Err(ParseError::BodyTooLarge)
            } else {
                Ok(Some(n))
            },
        },
    }
}

/// Split header text into lines.
#[verifier::loop_isolation(false)]
fn split_lines(s: &[u8]) -> (r: Vec<Vec<u8>>)
    ensures
        r.deep_view() == spec_lines(s@),
{
    let mut nl: Vec<u8> = Vec::new();
    nl.push(0x0a);
    assert(nl@ =~= lf());
    let raw = split_bytes(s, nl.as_slice());
    let ghost graw = spec_split(s@, lf());
    let mut out: Vec<Vec<u8>> = Vec::new();
    let mut i: usize = 0;
    while i < raw.len()
        invariant
            i <= graw.len(),
            raw.deep_view() == graw,
            out.deep_view() == spec_lines(s@).take(i as int),
        decreases graw.len() - i,
    {
        let ghost pre = out.deep_view();
        let l: &Vec<u8> = &raw[i];
        assert(l@ =~= graw[i as int]);
        let line: Vec<u8>;
        if l.len() > 0 && l[l.len() - 1] == 0x0d {
            line = subvec(l.as_slice(), 0, l.len() - 1);
            assert(line@ =~= strip_cr(graw[i as int]));
        } else {
            line = slice_to_vec(l.as_slice());
            assert(line@ =~= strip_cr(graw[i as int]));
        }
        out.push(line);
        proof {
            assert(spec_lines(s@)[i as int] == strip_cr(graw[i as int]));
            assert(out.deep_view() =~~= spec_lines(s@).take(i as int + 1));
        }
        i = i + 1;
    }
    assert(spec_lines(s@).take(spec_lines(s@).len() as int) =~~= spec_lines(s@));
    out
}

/// Parse the header lines after the request line into a map.
#[verifier::loop_isolation(false)]
fn parse_headers(lines: &Vec<Vec<u8>>) -> (r: KvMap)
    ensures
        r.wf(),
        kv_agrees(r@, spec_headers(lines.deep_view())),
{
    broadcast use vstd::set::axiom_set_insert_len;

    let ghost glines = lines.deep_view();
    let mut cv: Vec<u8> = Vec::new();
    cv.push(0x3a);
    assert(cv@ =~= colon());
    let mut m = KvMap::new();
    let mut n: usize = 1;
    proof {
        assert(spec_headers_upto(glines, 1).dom() =~= Set::<Seq<u8>>::empty());
        assert(spec_headers_upto(glines, 0).dom() =~= Set::<Seq<u8>>::empty());
    }
    while n < lines.len()
        invariant
            1 <= n <= glines.len() || (n == 1 && glines.len() <= 1),
            glines == lines.deep_view(),
            m.wf(),
            kv_agrees(m@, spec_headers_upto(glines, n as int)),
        decreases glines.len() - n,
    {
        let l: &Vec<u8> = &lines[n];
        assert(l@ =~= glines[n as int]);
        let ghost prev = spec_headers_upto(glines, n as int);
        proof {
            lemma_headers_upto_finite(glines, n as int);
        }
        match find_sub(l.as_slice(), cv.as_slice()) {
            Some(i) => {
                proof {
                    lemma_find(l@, colon(), 0);
                }
                let ll = l.len();
                assert(i as int + 1 <= ll as int);
                let kb = subvec(l.as_slice(), 0, i);
                let key = lower_bytes(trim_bytes(kb.as_slice()).as_slice());
                let vb = subvec(l.as_slice(), i + 1, ll);
                let value = trim_bytes(vb.as_slice());
                let ghost gk = key@;
                let ghost gv = value@;
                proof {
                    assert(spec_headers_upto(glines, n as int + 1) == prev.insert(gk, gv));
                }
                m.insert(key, value);
                proof {
                    if prev.contains_key(gk) {
                        assert(prev.dom().insert(gk) =~= prev.dom());
                    }
                }
            },
            None => {
                proof {
                    assert(spec_headers_upto(glines, n as int + 1) == prev);
                }
            },
        }
        n = n + 1;
    }
    assert(n as int == glines.len() || glines.len() <= 1);
    m
}

/// Body bytes that a request's header demands, under the configured body
/// size ceiling: the declared `content-length`, or zero without one.
pub fn required_body_size(raw_header: &str, settings: &HttpSettings) -> (r: Result<
    usize,
    ParseError,
>)
    ensures
        raw_header.spec_bytes().len() == 0 ==> r == Err::<usize, ParseError>(
            ParseError::EmptyHeader,
        ),
        raw_header.spec_bytes().len() > 0 ==> match spec_content_length(
            map_get(
                spec_headers(spec_lines(raw_header.spec_bytes())),
                lit("content-length"),
            ),
            settings.max_body_size as int,
        ) {
            Err(e) => r == Err::<usize, ParseError>(e),
            Ok(None) => r == Ok::<usize, ParseError>(0),
            Ok(Some(n)) => r matches Ok(v) && v as int == n,
        },
{
    let hb = raw_header.as_bytes();
    if hb.len() == 0 {
        return Err(ParseError::EmptyHeader);
    }
    let lines = split_lines(hb);
    let headers = parse_headers(&lines);
    match headers.get("content-length".as_bytes()) {
        None => Ok(0),
        Some(v) => match parse_usize_bytes(v.as_slice()) {
            None => Err(ParseError::InvalidContentLength),
            Some(n) => {
                if n > settings.max_body_size {
                    Err(ParseError::BodyTooLarge)
                } else {
                    Ok(n)
                }
            },
        },
    }
}

/// Accumulates body bytes for one connection until the declared content
/// length is reached, counting consecutive short reads against a retry
/// budget.
pub struct BodyReader {
    body: Vec<u8>,
    target: usize,
    buffer_size: usize,
    max_stalls: usize,
    stalls: usize,
}

impl BodyReader {
    /// Body bytes accumulated so far, starting with the leftover bytes the
    /// framer read ahead.
    pub closed spec fn body_bytes(&self) -> Seq<u8> {
        self.body@
    }

    /// The declared content length being read toward.
    pub closed spec fn target_len(&self) -> int {
        self.target as int
    }

    /// Bytes requested per read; a shorter read counts as a stall.
    pub closed spec fn buffer_len(&self) -> int {
        self.buffer_size as int
    }

    /// Consecutive stalls tolerated before failing.
    pub closed spec fn stall_budget(&self) -> int {
        self.max_stalls as int
    }

    /// Consecutive stalls seen so far.
    pub closed spec fn stall_count(&self) -> int {
        self.stalls as int
    }

    /// A reader that starts from the leftover bytes read ahead of the
    /// body and reads toward `content_length` bytes.
    pub fn new(leftover: Vec<u8>, content_length: usize, settings: &HttpSettings) -> (r: Self)
        ensures
            r.body_bytes() == leftover@,
            r.target_len() == content_length,
            r.buffer_len() == settings.body_buffer,
            r.stall_budget() == settings.body_read_attempts,
            r.stall_count() == 0,
    {
        BodyReader {
            body: leftover,
            target: content_length,
            buffer_size: settings.body_buffer,
            max_stalls: settings.body_read_attempts,
            stalls: 0,
        }
    }

    /// Number of body bytes accumulated so far.
    pub fn len(&self) -> (r: usize)
        ensures
            r == self.body_bytes().len(),
    {
        self.body.len()
    }

    /// More body bytes are still owed.
    pub fn needs_more(&self) -> (r: bool)
        ensures
            r == (self.body_bytes().len() < self.target_len()),
    {
        self.body.len() < self.target
    }

    /// How many bytes the next read should request.
    pub fn chunk_size(&self) -> (r: usize)
        ensures
            r == self.buffer_len(),
    {
        self.buffer_size
    }

    /// Feed the next transport chunk.
    ///
    /// The chunk is always kept.  If the target is still not reached, a
    /// chunk shorter than the read buffer counts as one more consecutive
    /// stall, and one stall beyond the budget fails with
    /// `BodyReadStalled`; a full chunk resets the stall count.
    pub fn push_chunk(&mut self, chunk: &[u8]) -> (r: Result<(), ParseError>)
        requires
            old(self).body_bytes().len() + chunk@.len() <= usize::MAX,
        ensures
            final(self).body_bytes() == old(self).body_bytes() + chunk@,
            final(self).target_len() == old(self).target_len(),
            final(self).buffer_len() == old(self).buffer_len(),
            final(self).stall_budget() == old(self).stall_budget(),
            ({
                let done = old(self).body_bytes().len() + chunk@.len() >= old(self).target_len();
                let short = chunk@.len() < old(self).buffer_len();
                &&& done ==> r == Ok::<(), ParseError>(()) && final(self).stall_count()
                    == old(self).stall_count()
                &&& (!done && !short) ==> r == Ok::<(), ParseError>(())
                    && final(self).stall_count() == 0
                &&& (!done && short && old(self).stall_count() >= old(self).stall_budget()) ==> r
                    == Err::<(), ParseError>(ParseError::BodyReadStalled)
                &&& (!done && short && old(self).stall_count() < old(self).stall_budget()) ==> r
                    == Ok::<(), ParseError>(()) && final(self).stall_count()
                    == old(self).stall_count() + 1
            }),
    {
        push_bytes(&mut self.body, chunk);
        if self.body.len() >= self.target {
            return Ok(());
        }
        if chunk.len() < self.buffer_size {
            if self.stalls >= self.max_stalls {
                return Err(ParseError::BodyReadStalled);
            }
            self.stalls = self.stalls + 1;
            return Ok(());
        }
        self.stalls = 0;
        Ok(())
    }

    /// The accumulated body.
    pub fn into_body(self) -> (r: Vec<u8>)
        ensures
            r@ == self.body_bytes(),
    {
        self.body
    }
}


/// View of an optional byte vector.
pub open spec fn opt_bytes(o: Option<Vec<u8>>) -> Option<Seq<u8>> {
    match o {
        Some(v) => Some(v@),
        None => None,
    }
}

/// Walk the `;`-separated content-type parameters from index `n`, each
/// trimmed: the first `boundary=` parameter ends the walk and names the
/// boundary; the first other parameter seen is the media type.
pub open spec fn spec_ct_scan(segs: Seq<Seq<u8>>, n: int, ct: Option<Seq<u8>>) -> (
    Option<Seq<u8>>,
    Option<Seq<u8>>,
)
    decreases segs.len() - n,
{
    if n < 0 || n >= segs.len() {
        (ct, None)
    } else {
        let t = spec_trim(segs[n]);
        if spec_starts_with(t, boundary_marker()) {
            let ps = spec_split(t, eq_byte());
            if ps.len() >= 2 {
                (ct, Some(ps[1]))
            } else {
                spec_ct_scan(segs, n + 1, ct)
            }
        } else if ct is None {
            spec_ct_scan(segs, n + 1, Some(t))
        } else {
            spec_ct_scan(segs, n + 1, ct)
        }
    }
}

/// Media type and boundary named by a content-type header value.
#[verifier::loop_isolation(false)]
fn scan_content_type(v: &[u8]) -> (r: (Option<Vec<u8>>, Option<Vec<u8>>))
    ensures
        ({
            let sc = spec_ct_scan(spec_split(v@, semi()), 0, None);
            &&& opt_bytes(r.0) == sc.0
            &&& opt_bytes(r.1) == sc.1
        }),
{
    let mut sv: Vec<u8> = Vec::new();
    sv.push(0x3b);
    assert(sv@ =~= semi());
    let mut ev: Vec<u8> = Vec::new();
    ev.push(0x3d);
    assert(ev@ =~= eq_byte());
    let mut bm: Vec<u8> = Vec::new();
    bm.push(0x62);
    bm.push(0x6f);
    bm.push(0x75);
    bm.push(0x6e);
    bm.push(0x64);
    bm.push(0x61);
    bm.push(0x72);
    bm.push(0x79);
    bm.push(0x3d);
    assert(bm@ =~= boundary_marker());
    let segs = split_bytes(v, sv.as_slice());
    let ghost gsegs = spec_split(v@, semi());
    let mut ct: Option<Vec<u8>> = None;
    let mut n: usize = 0;
    while n < segs.len()
        invariant
            n <= gsegs.len(),
            segs.deep_view() == gsegs,
            spec_ct_scan(gsegs, 0, None) == spec_ct_scan(gsegs, n as int, opt_bytes(ct)),
        decreases gsegs.len() - n,
    {
        assert(segs@[n as int]@ =~= gsegs[n as int]);
        let t = trim_bytes(segs[n].as_slice());
        if starts_with_bytes(t.as_slice(), bm.as_slice()) {
            let ps = split_bytes(t.as_slice(), ev.as_slice());
            if ps.len() >= 2 {
                let b = slice_to_vec(ps[1].as_slice());
                assert(b@ =~= spec_split(spec_trim(gsegs[n as int]), eq_byte())[1]);
                return (ct, Some(b));
            }
        } else if ct.is_none() {
            ct = Some(t);
        }
        n = n + 1;
    }
    (ct, None)
}

/// Field name announced by a section's first line: the quoted token of
/// its first `name=` parameter, quotes stripped; nothing when no usable
/// `name=` parameter is present.
pub open spec fn spec_mp_name_scan(segs: Seq<Seq<u8>>, n: int) -> Option<Seq<u8>>
    decreases segs.len() - n,
{
    if n < 0 || n >= segs.len() {
        None
    } else {
        let t = spec_trim(segs[n]);
        if spec_starts_with(t, name_marker()) {
            let ps = spec_split(t, eq_byte());
            if ps.len() >= 2 {
                if ps[1].len() >= 2 {
                    Some(ps[1].subrange(1, ps[1].len() - 1))
                } else {
                    None
                }
            } else {
                spec_mp_name_scan(segs, n + 1)
            }
        } else {
            spec_mp_name_scan(segs, n + 1)
        }
    }
}

/// Field value of a section's data part: the part itself, except that a
/// single leading `\r\n` (an empty first data line) or a single trailing
/// `\r\n` (when the first `\r\n` ends the part) is removed; embedded
/// `\r\n` elsewhere is preserved.
pub open spec fn spec_mp_value(d: Seq<u8>) -> Seq<u8> {
    let ps = spec_splitn(d, crlf(), 2);
    if ps.len() < 2 {
        d
    } else if ps[0].len() == 0 {
        ps[1]
    } else if ps[1].len() == 0 {
        ps[0]
    } else {
        d
    }
}

/// One multipart section read as a field: its first line names the field
/// (lower-cased), its second line is skipped, the rest is the value;
/// fewer than three parts or a missing name is malformed.
pub open spec fn spec_mp_section(sec: Seq<u8>) -> Option<(Seq<u8>, Seq<u8>)> {
    let parts = spec_splitn(sec, crlf(), 3);
    match spec_mp_name_scan(spec_split(parts[0], semi()), 0) {
        None => None,
        Some(name) => if parts.len() < 3 {
            None
        } else {
            Some((spec_lower(name), spec_mp_value(parts[2])))
        },
    }
}

/// A section stripped of the closing delimiter: one that ends with the
/// closing delimiter loses it and the `\r\n` before it.
pub open spec fn spec_mp_clean(sec: Seq<u8>, closing: Seq<u8>) -> Seq<u8> {
    if spec_ends_with(sec, closing) {
        if sec.len() >= closing.len() + 2 {
            sec.subrange(0, sec.len() - closing.len() - 2)
        } else {
            Seq::empty()
        }
    } else {
        sec
    }
}

/// The field map of the first `n` sections, the preamble (section 0)
/// excluded; any malformed section spoils the whole body.
pub open spec fn spec_mp_upto(sections: Seq<Seq<u8>>, n: int, closing: Seq<u8>) -> Option<
    Map<Seq<u8>, Seq<u8>>,
>
    decreases n,
{
    if n <= 1 {
        Some(Map::empty())
    } else {
        match spec_mp_upto(sections, n - 1, closing) {
            None => None,
            Some(m) => match spec_mp_section(spec_mp_clean(sections[n - 1], closing)) {
                None => None,
                Some(kv) => Some(m.insert(kv.0, kv.1)),
            },
        }
    }
}

/// The section delimiter `--{boundary}\r\n`.
pub open spec fn mp_sep(boundary: Seq<u8>) -> Seq<u8> {
    dashes() + boundary + crlf()
}

/// The closing delimiter `--{boundary}--\r\n`.
pub open spec fn mp_closing(boundary: Seq<u8>) -> Seq<u8> {
    dashes() + boundary + dashes() + crlf()
}

/// The field map a multipart body decodes to, or nothing when a section
/// is malformed.
pub open spec fn spec_multipart(body: Seq<u8>, boundary: Seq<u8>) -> Option<Map<Seq<u8>, Seq<u8>>> {
    let sections = spec_split(body, mp_sep(boundary));
    spec_mp_upto(sections, sections.len() as int, mp_closing(boundary))
}

/// A malformed section spoils every longer prefix as well.
pub proof fn lemma_mp_upto_none(sections: Seq<Seq<u8>>, n: int, m: int, closing: Seq<u8>)
    requires
        n <= m,
        spec_mp_upto(sections, n, closing) is None,
    ensures
        spec_mp_upto(sections, m, closing) is None,
    decreases m,
{
    if m <= 1 {
        assert(spec_mp_upto(sections, n, closing) is Some);
    } else if n < m {
        lemma_mp_upto_none(sections, n, m - 1, closing);
    }
}

/// The multipart maps have finitely many keys.
pub proof fn lemma_mp_upto_finite(sections: Seq<Seq<u8>>, n: int, closing: Seq<u8>)
    ensures
        spec_mp_upto(sections, n, closing) matches Some(m) ==> m.dom().finite(),
    decreases n,
{
    if n > 1 {
        lemma_mp_upto_finite(sections, n - 1, closing);
    }
}

/// Field name of a section's first line.
#[verifier::loop_isolation(false)]
fn parse_section_name(line: &[u8]) -> (r: Option<Vec<u8>>)
    ensures
        opt_bytes(r) == spec_mp_name_scan(spec_split(line@, semi()), 0),
{
    let mut sv: Vec<u8> = Vec::new();
    sv.push(0x3b);
    assert(sv@ =~= semi());
    let mut ev: Vec<u8> = Vec::new();
    ev.push(0x3d);
    assert(ev@ =~= eq_byte());
    let mut nm: Vec<u8> = Vec::new();
    nm.push(0x6e);
    nm.push(0x61);
    nm.push(0x6d);
    nm.push(0x65);
    nm.push(0x3d);
    assert(nm@ =~= name_marker());
    let segs = split_bytes(line, sv.as_slice());
    let ghost gsegs = spec_split(line@, semi());
    let mut n: usize = 0;
    while n < segs.len()
        invariant
            n <= gsegs.len(),
            segs.deep_view() == gsegs,
            spec_mp_name_scan(gsegs, 0) == spec_mp_name_scan(gsegs, n as int),
        decreases gsegs.len() - n,
    {
        assert(segs@[n as int]@ =~= gsegs[n as int]);
        let t = trim_bytes(segs[n].as_slice());
        if starts_with_bytes(t.as_slice(), nm.as_slice()) {
            let ps = split_bytes(t.as_slice(), ev.as_slice());
            if ps.len() >= 2 {
                let tok: &Vec<u8> = &ps[1];
                assert(tok@ =~= spec_split(spec_trim(gsegs[n as int]), eq_byte())[1]);
                if tok.len() >= 2 {
                    return Some(subvec(tok.as_slice(), 1, tok.len() - 1));
                } else {
                    return None;
                }
            }
        }
        n = n + 1;
    }
    None
}

/// Field value of a section's data part.
fn section_value(d: &[u8]) -> (r: Vec<u8>)
    ensures
        r@ == spec_mp_value(d@),
{
    let mut crv: Vec<u8> = Vec::new();
    crv.push(0x0d);
    crv.push(0x0a);
    assert(crv@ =~= crlf());
    let ps = splitn_bytes(d, crv.as_slice(), 2);
    if ps.len() < 2 {
        return slice_to_vec(d);
    }
    assert(ps@[0]@ =~= spec_splitn(d@, crlf(), 2)[0]);
    assert(ps@[1]@ =~= spec_splitn(d@, crlf(), 2)[1]);
    if ps[0].len() == 0 {
        slice_to_vec(ps[1].as_slice())
    } else if ps[1].len() == 0 {
        slice_to_vec(ps[0].as_slice())
    } else {
        slice_to_vec(d)
    }
}

/// One cleaned section read as a field.
fn parse_section(sec: &[u8]) -> (r: Option<(Vec<u8>, Vec<u8>)>)
    ensures
        match r {
            Some(kv) => spec_mp_section(sec@) == Some((kv.0@, kv.1@)),
            None => spec_mp_section(sec@) is None,
        },
{
    let mut crv: Vec<u8> = Vec::new();
    crv.push(0x0d);
    crv.push(0x0a);
    assert(crv@ =~= crlf());
    let parts = splitn_bytes(sec, crv.as_slice(), 3);
    assert(spec_splitn(sec@, crlf(), 3).len() >= 1);
    assert(parts@[0]@ =~= spec_splitn(sec@, crlf(), 3)[0]);
    match parse_section_name(parts[0].as_slice()) {
        None => None,
        Some(nm) => {
            if parts.len() < 3 {
                None
            } else {
                assert(parts@[2]@ =~= spec_splitn(sec@, crlf(), 3)[2]);
                let value = section_value(parts[2].as_slice());
                let key = lower_bytes(nm.as_slice());
                Some((key, value))
            }
        },
    }
}

/// A section stripped of the closing delimiter.
fn clean_section(sec: &[u8], closing: &[u8]) -> (r: Vec<u8>)
    ensures
        r@ == spec_mp_clean(sec@, closing@),
{
    if ends_with_bytes(sec, closing) {
        if sec.len() - closing.len() >= 2 {
            subvec(sec, 0, sec.len() - closing.len() - 2)
        } else {
            let r: Vec<u8> = Vec::new();
            assert(r@ =~= Seq::<u8>::empty());
            r
        }
    } else {
        slice_to_vec(sec)
    }
}

/// Decode a multipart/form-data body against its boundary.
#[verifier::loop_isolation(false)]
pub fn parse_post_upload(body: &[u8], boundary: &[u8]) -> (r: Result<KvMap, ParseError>)
    ensures
        match r {
            Ok(m) => spec_multipart(body@, boundary@) matches Some(mm) && m.wf() && kv_agrees(
                m@,
                mm,
            ),
            Err(e) => e == ParseError::MalformedMultipart && spec_multipart(body@, boundary@)
                is None,
        },
{
    broadcast use vstd::set::axiom_set_insert_len;

    let mut sep: Vec<u8> = Vec::new();
    sep.push(0x2d);
    sep.push(0x2d);
    push_bytes(&mut sep, boundary);
    sep.push(0x0d);
    sep.push(0x0a);
    assert(sep@ =~= mp_sep(boundary@));
    let mut closing: Vec<u8> = Vec::new();
    closing.push(0x2d);
    closing.push(0x2d);
    push_bytes(&mut closing, boundary);
    closing.push(0x2d);
    closing.push(0x2d);
    closing.push(0x0d);
    closing.push(0x0a);
    assert(closing@ =~= mp_closing(boundary@));
    let sections = split_bytes(body, sep.as_slice());
    let ghost gsec = spec_split(body@, mp_sep(boundary@));
    let ghost gclosing = mp_closing(boundary@);
    let mut m = KvMap::new();
    let ghost mut gm: Map<Seq<u8>, Seq<u8>> = Map::empty();
    let mut n: usize = 1;
    proof {
        assert(gm.dom() =~= Set::<Seq<u8>>::empty());
    }
    while n < sections.len()
        invariant
            1 <= n,
            n <= gsec.len() || (n == 1 && gsec.len() <= 1),
            sections.deep_view() == gsec,
            m.wf(),
            spec_mp_upto(gsec, n as int, gclosing) == Some(gm),
            kv_agrees(m@, gm),
        decreases gsec.len() - n,
    {
        assert(sections@[n as int]@ =~= gsec[n as int]);
        proof {
            lemma_mp_upto_finite(gsec, n as int, gclosing);
        }
        let cleaned = clean_section(sections[n].as_slice(), closing.as_slice());
        match parse_section(cleaned.as_slice()) {
            None => {
                proof {
                    assert(spec_mp_upto(gsec, n as int + 1, gclosing) is None);
                    lemma_mp_upto_none(gsec, n as int + 1, gsec.len() as int, gclosing);
                }
                return Err(ParseError::MalformedMultipart);
            },
            Some(kv) => {
                let (key, value) = kv;
                let ghost gk = key@;
                let ghost gv = value@;
                proof {
                    assert(spec_mp_upto(gsec, n as int + 1, gclosing) == Some(gm.insert(gk, gv)));
                }
                m.insert(key, value);
                proof {
                    if gm.contains_key(gk) {
                        assert(gm.dom().insert(gk) =~= gm.dom());
                    }
                    gm = gm.insert(gk, gv);
                }
            },
        }
        n = n + 1;
    }
    assert(n as int == gsec.len() || gsec.len() <= 1);
    Ok(m)
}

/// What a POST body decodes to under a content-type header value: the
/// multipart decoder when the media type says so (a missing boundary
/// failing), the key=value decoder otherwise, both behind a UTF-8 gate.
pub open spec fn spec_post(ctv: Option<Seq<u8>>, body: Seq<u8>) -> Result<
    Map<Seq<u8>, Seq<u8>>,
    ParseError,
> {
    if !valid_utf8(body) {
        Err(ParseError::InvalidUtf8)
    } else {
        match ctv {
            None => Ok(spec_params(body)),
            Some(v) => {
                let sc = spec_ct_scan(spec_split(v, semi()), 0, None);
                if sc.0 == Some(lit("multipart/form-data")) {
                    match sc.1 {
                        None => Err(ParseError::MissingBoundary),
                        Some(bd) => match spec_multipart(body, bd) {
                            None => Err(ParseError::MalformedMultipart),
                            Some(m) => Ok(m),
                        },
                    }
                } else {
                    Ok(spec_params(body))
                }
            },
        }
    }
}

/// Decode a POST body into parameters, honoring the content-type header.
pub fn parse_post(headers: &KvMap, body: &[u8]) -> (r: Result<KvMap, ParseError>)
    ensures
        match r {
            Ok(m) => spec_post(kv_get(headers@, lit("content-type")), body@) matches Ok(mm)
                && m.wf() && kv_agrees(m@, mm),
            Err(e) => spec_post(kv_get(headers@, lit("content-type")), body@) == Err::<
                Map<Seq<u8>, Seq<u8>>,
                ParseError,
            >(e),
        },
{
    if !is_utf8(body) {
        return Err(ParseError::InvalidUtf8);
    }
    match headers.get("content-type".as_bytes()) {
        None => Ok(parse_parameters(body)),
        Some(ctv) => {
            let sc = scan_content_type(ctv.as_slice());
            let is_mp = match &sc.0 {
                Some(c) => bytes_eq(c.as_slice(), "multipart/form-data".as_bytes()),
                None => false,
            };
            if is_mp {
                match sc.1 {
                    None => Err(ParseError::MissingBoundary),
                    Some(b) => parse_post_upload(body, b.as_slice()),
                }
            } else {
                Ok(parse_parameters(body))
            }
        },
    }
}


/// Spec-level image of a parsed request.
pub struct ReqSpec {
    /// Parsed method.
    pub method: HttpMethod,
    /// Path with the query stripped.
    pub url: Seq<u8>,
    /// Header map, names lower-cased.
    pub headers: Map<Seq<u8>, Seq<u8>>,
    /// Query parameter map.
    pub get: Map<Seq<u8>, Seq<u8>>,
    /// POST parameter map.
    pub post: Map<Seq<u8>, Seq<u8>>,
    /// Raw body bytes.
    pub body: Seq<u8>,
}

/// What header text, body bytes and settings parse to: the request image,
/// or the first failure.  A body is kept only when a `content-length`
/// header was given; POST parameters are decoded only for POST requests.
pub open spec fn spec_request(h: Seq<u8>, raw_body: Seq<u8>, settings: HttpSettings) -> Result<
    ReqSpec,
    ParseError,
> {
    if h.len() == 0 {
        Err(ParseError::EmptyHeader)
    } else {
        let lines = spec_lines(h);
        let line0 = lines[0];
        let method = line_method(line0);
        let url = line_url(line0);
        let headers = spec_headers(lines);
        let get = match line_query(line0) {
            Some(q) => spec_params(q),
            None => Map::empty(),
        };
        match spec_content_length(
            map_get(headers, lit("content-length")),
            settings.max_body_size as int,
        ) {
            Err(e) => Err(e),
            Ok(clen) => {
                let body = if clen is Some {
                    raw_body
                } else {
                    Seq::empty()
                };
                let post = if method == HttpMethod::POST {
                    spec_post(map_get(headers, lit("content-type")), body)
                } else {
                    Ok(Map::empty())
                };
                match post {
                    Err(e) => Err(e),
                    Ok(p) => Ok(
                        ReqSpec { method, url, headers, get, post: p, body },
                    ),
                }
            },
        }
    }
}

/// A parsed HTTP request: method, path, headers, parameters and body.
#[derive(Debug)]
pub struct HttpRequest {
    method: HttpMethod,
    url: Vec<u8>,
    headers: KvMap,
    get: KvMap,
    post: KvMap,
    body: Vec<u8>,
}

impl HttpRequest {
    /// Parsed method.
    pub closed spec fn view_method(&self) -> HttpMethod {
        self.method
    }

    /// Path bytes.
    pub closed spec fn view_url(&self) -> Seq<u8> {
        self.url@
    }

    /// Header entries.
    pub closed spec fn view_headers(&self) -> Seq<(Seq<u8>, Seq<u8>)> {
        self.headers@
    }

    /// Query parameter entries.
    pub closed spec fn view_get(&self) -> Seq<(Seq<u8>, Seq<u8>)> {
        self.get@
    }

    /// POST parameter entries.
    pub closed spec fn view_post(&self) -> Seq<(Seq<u8>, Seq<u8>)> {
        self.post@
    }

    /// Body bytes.
    pub closed spec fn view_body(&self) -> Seq<u8> {
        self.body@
    }

    /// The request realizes the spec-level image `m`.
    pub open spec fn matches_spec(&self, m: ReqSpec) -> bool {
        &&& self.view_method() == m.method
        &&& self.view_url() == m.url
        &&& self.view_body() == m.body
        &&& kv_agrees(self.view_headers(), m.headers)
        &&& kv_agrees(self.view_get(), m.get)
        &&& kv_agrees(self.view_post(), m.post)
    }

    /// Get HTTP request method.
    pub fn method(&self) -> (r: &HttpMethod)
        ensures
            *r == self.view_method(),
    {
        &self.method
    }

    /// Get URL path bytes, query stripped.
    pub fn url(&self) -> (r: &Vec<u8>)
        ensures
            r@ == self.view_url(),
    {
        &self.url
    }

    /// Get the headers map.
    pub fn headers(&self) -> (r: &KvMap)
        ensures
            r@ == self.view_headers(),
    {
        &self.headers
    }

    /// Get the query parameters map.
    pub fn get(&self) -> (r: &KvMap)
        ensures
            r@ == self.view_get(),
    {
        &self.get
    }

    /// Get the POST parameters map.
    pub fn post(&self) -> (r: &KvMap)
        ensures
            r@ == self.view_post(),
    {
        &self.post
    }

    /// Get the body bytes.
    pub fn body(&self) -> (r: &Vec<u8>)
        ensures
            r@ == self.view_body(),
    {
        &self.body
    }

    /// Parse a request from framed header text and its materialized body
    /// bytes (the leftover bytes plus everything read afterwards).
    pub fn from(raw_header: &str, raw_body: Vec<u8>, settings: &HttpSettings) -> (r: Result<
        HttpRequest,
        ParseError,
    >)
        ensures
            match r {
                Ok(req) => spec_request(raw_header.spec_bytes(), raw_body@, *settings) matches Ok(
                    m,
                ) && req.matches_spec(m),
                Err(e) => spec_request(raw_header.spec_bytes(), raw_body@, *settings) == Err::<
                    ReqSpec,
                    ParseError,
                >(e),
            },
    {
        let hb = raw_header.as_bytes();
        if hb.len() == 0 {
            return Err(ParseError::EmptyHeader);
        }
        let ghost gh = raw_header.spec_bytes();
        let lines = split_lines(hb);
        proof {
            assert(spec_lines(gh).len() >= 1);
        }
        let line0: &Vec<u8> = &lines[0];
        assert(line0@ =~= spec_lines(gh)[0]);
        let ghost gline0 = spec_lines(gh)[0];
        let mut spv: Vec<u8> = Vec::new();
        spv.push(0x20);
        assert(spv@ =~= sp());
        let mut qv: Vec<u8> = Vec::new();
        qv.push(0x3f);
        assert(qv@ =~= qmark());
        let toks = split_bytes(line0.as_slice(), spv.as_slice());
        proof {
            assert(spec_split(gline0, sp()).len() >= 1);
        }
        assert(toks@[0]@ =~= spec_split(gline0, sp())[0]);
        let method: HttpMethod = if bytes_eq(toks[0].as_slice(), "POST".as_bytes()) {
            HttpMethod::POST
        } else {
            HttpMethod::GET
        };
        assert(method == line_method(gline0));
        let url: Vec<u8>;
        let mut query: Option<Vec<u8>> = None;
        if toks.len() >= 2 {
            assert(toks@[1]@ =~= spec_split(gline0, sp())[1]);
            let u = splitn_bytes(toks[1].as_slice(), qv.as_slice(), 2);
            proof {
                assert(spec_splitn(spec_split(gline0, sp())[1], qmark(), 2).len() >= 1);
            }
            assert(u@[0]@ =~= spec_splitn(spec_split(gline0, sp())[1], qmark(), 2)[0]);
            url = slice_to_vec(u[0].as_slice());
            if u.len() >= 2 {
                assert(u@[1]@ =~= spec_splitn(spec_split(gline0, sp())[1], qmark(), 2)[1]);
                query = Some(slice_to_vec(u[1].as_slice()));
            }
        } else {
            url = slice_to_vec("/".as_bytes());
        }
        assert(url@ == line_url(gline0));
        assert(opt_bytes(query) == line_query(gline0));
        let headers = parse_headers(&lines);
        let get: KvMap = match &query {
            Some(q) => parse_parameters(q.as_slice()),
            None => {
                let e = KvMap::new();
                proof {
                    assert(Map::<Seq<u8>, Seq<u8>>::empty().dom() =~= Set::<Seq<u8>>::empty());
                }
                e
            },
        };
        let clen: Option<usize> = match headers.get("content-length".as_bytes()) {
            None => None,
            Some(v) => match parse_usize_bytes(v.as_slice()) {
                None => {
                    return Err(ParseError::InvalidContentLength);
                },
                Some(n) => {
                    if n > settings.max_body_size {
                        return Err(ParseError::BodyTooLarge);
                    }
                    Some(n)
                },
            },
        };
        let body: Vec<u8> = match clen {
            Some(_) => raw_body,
            None => {
                let e: Vec<u8> = Vec::new();
                assert(e@ =~= Seq::<u8>::empty());
                e
            },
        };
        let post: KvMap = match method {
            HttpMethod::POST => match parse_post(&headers, body.as_slice()) {
                Ok(m) => m,
                Err(e) => {
                    return Err(e);
                },
            },
            HttpMethod::GET => {
                let e = KvMap::new();
                proof {
                    assert(Map::<Seq<u8>, Seq<u8>>::empty().dom() =~= Set::<Seq<u8>>::empty());
                }
                e
            },
        };
        Ok(HttpRequest { method, url, headers, get, post, body })
    }
}

} // verus!
