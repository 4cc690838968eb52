//! Byte-sequence primitives: searching, splitting, trimming, case folding,
//! decimal parsing and rendering.
//!
//! Every executable function is specified against a small spec-level model;
//! the parser and the response builder state their contracts in terms of
//! these spec functions.

use vstd::prelude::*;

verus! {

use vstd::slice::{slice_subrange, slice_to_vec};
use vstd::string::StringSliceAdditionalSpecFns;

/// UTF-8 bytes of a string slice; protocol literals are written with this.
pub open spec fn lit(s: &str) -> Seq<u8> {
    s.spec_bytes()
}

/// ASCII whitespace, the bytes that trimming removes.  Trimming is
/// deliberately ASCII-only: non-ASCII Unicode whitespace is kept.
pub open spec fn is_ws(b: u8) -> bool {
    b == 0x20 || (0x09 <= b && b <= 0x0d)
}

/// ASCII decimal digit.
pub open spec fn is_digit(b: u8) -> bool {
    0x30 <= b && b <= 0x39
}

/// ASCII lower-casing of one byte.
pub open spec fn lower_byte(b: u8) -> u8 {
    if 0x41 <= b && b <= 0x5a {
        (b + 0x20) as u8
    } else {
        b
    }
}

/// ASCII lower-casing of a byte sequence.  Case folding is deliberately
/// ASCII-only: bytes of non-ASCII characters pass through unchanged.
pub open spec fn spec_lower(s: Seq<u8>) -> Seq<u8> {
    s.map_values(|b: u8| lower_byte(b))
}

/// Bytes that survive blank removal: everything but space and newline.
pub open spec fn keep_byte(b: u8) -> bool {
    b != 0x20 && b != 0x0a
}

/// A byte sequence with spaces and newlines removed.
pub open spec fn clean_of(s: Seq<u8>) -> Seq<u8> {
    s.filter(|b: u8| keep_byte(b))
}

/// `pat` occurs in `s` at offset `i`.
pub open spec fn match_at(s: Seq<u8>, pat: Seq<u8>, i: int) -> bool {
    0 <= i && i + pat.len() <= s.len() && s.subrange(i, i + pat.len() as int) == pat
}

/// Offset of the first occurrence of `pat` in `s` at or after `from`,
/// or -1 when there is none.
pub open spec fn spec_find(s: Seq<u8>, pat: Seq<u8>, from: int) -> int
    decreases s.len() - from,
{
    if from < 0 || from + pat.len() > s.len() || pat.len() <= 0 {
        -1
    } else if match_at(s, pat, from) {
        from
    } else {
        spec_find(s, pat, from + 1)
    }
}

/// What `spec_find` returns: the least occurrence at or after `from`,
/// or -1 when no occurrence exists there.
pub proof fn lemma_find(s: Seq<u8>, pat: Seq<u8>, from: int)
    requires
        0 <= from,
        pat.len() >= 1,
    ensures
        spec_find(s, pat, from) == -1 ==> forall|i: int| from <= i ==> !match_at(s, pat, i),
        spec_find(s, pat, from) >= 0 ==> from <= spec_find(s, pat, from)
            && spec_find(s, pat, from) + pat.len() <= s.len()
            && match_at(s, pat, spec_find(s, pat, from))
            && (forall|i: int| from <= i < spec_find(s, pat, from) ==> !match_at(s, pat, i)),
    decreases s.len() - from,
{
    if from + pat.len() > s.len() || pat.len() <= 0 {
        if from + pat.len() > s.len() {
            assert forall|i: int| from <= i implies !match_at(s, pat, i) by {
                assert(i + pat.len() >= from + pat.len());
            }
        }
    } else if match_at(s, pat, from) {
    } else {
        lemma_find(s, pat, from + 1);
    }
}

/// An occurrence at `l` with none before it is what `spec_find` returns.
pub proof fn lemma_find_at(s: Seq<u8>, pat: Seq<u8>, l: int)
    requires
        pat.len() >= 1,
        match_at(s, pat, l),
        forall|j: int| 0 <= j < l ==> !match_at(s, pat, j),
    ensures
        spec_find(s, pat, 0) == l,
{
    lemma_find_at_from(s, pat, 0, l);
}

/// As `lemma_find_at`, searching from `from`.
pub proof fn lemma_find_at_from(s: Seq<u8>, pat: Seq<u8>, from: int, l: int)
    requires
        pat.len() >= 1,
        0 <= from <= l,
        match_at(s, pat, l),
        forall|j: int| from <= j < l ==> !match_at(s, pat, j),
    ensures
        spec_find(s, pat, from) == l,
    decreases l - from,
{
    assert(from + pat.len() <= s.len());
    if from == l {
    } else {
        assert(!match_at(s, pat, from));
        lemma_find_at_from(s, pat, from + 1, l);
    }
}

/// The pieces of `s` between the occurrences of `pat`, in order; the whole
/// of `s` when `pat` does not occur.  There is always at least one piece.
pub open spec fn spec_split(s: Seq<u8>, pat: Seq<u8>) -> Seq<Seq<u8>>
    decreases s.len(),
{
    let i = spec_find(s, pat, 0);
    if 0 <= i && i + pat.len() <= s.len() && 1 <= pat.len() {
        seq![s.subrange(0, i)] + spec_split(s.subrange(i + pat.len(), s.len() as int), pat)
    } else {
        seq![s]
    }
}

/// As `spec_split`, but at most `n` pieces: the last piece keeps any further
/// occurrences of `pat`.
pub open spec fn spec_splitn(s: Seq<u8>, pat: Seq<u8>, n: int) -> Seq<Seq<u8>>
    decreases n,
{
    if n <= 1 {
        seq![s]
    } else {
        let i = spec_find(s, pat, 0);
        if 0 <= i && i + pat.len() <= s.len() && 1 <= pat.len() {
            seq![s.subrange(0, i)] + spec_splitn(s.subrange(i + pat.len(), s.len() as int), pat, n - 1)
        } else {
            seq![s]
        }
    }
}

/// `p` is a prefix of `s`.
pub open spec fn spec_starts_with(s: Seq<u8>, p: Seq<u8>) -> bool {
    s.len() >= p.len() && s.subrange(0, p.len() as int) == p
}

/// `p` is a suffix of `s`.
pub open spec fn spec_ends_with(s: Seq<u8>, p: Seq<u8>) -> bool {
    s.len() >= p.len() && s.subrange(s.len() - p.len(), s.len() as int) == p
}

/// `s` with leading ASCII whitespace removed.
pub open spec fn spec_trim_start(s: Seq<u8>) -> Seq<u8>
    decreases s.len(),
{
    if s.len() > 0 && is_ws(s[0]) {
        spec_trim_start(s.skip(1))
    } else {
        s
    }
}

/// `s` with trailing ASCII whitespace removed.
pub open spec fn spec_trim_end(s: Seq<u8>) -> Seq<u8>
    decreases s.len(),
{
    if s.len() > 0 && is_ws(s[s.len() - 1]) {
        spec_trim_end(s.drop_last())
    } else {
        s
    }
}

/// `s` with ASCII whitespace removed at both ends.
pub open spec fn spec_trim(s: Seq<u8>) -> Seq<u8> {
    spec_trim_end(spec_trim_start(s))
}

/// Numeric value of a digit sequence, most significant digit first.
pub open spec fn digits_val(s: Seq<u8>) -> int
    decreases s.len(),
{
    if s.len() == 0 {
        0
    } else {
        digits_val(s.drop_last()) * 10 + (s.last() - 0x30)
    }
}

/// Every byte of `s` is an ASCII digit.
pub open spec fn all_digits(s: Seq<u8>) -> bool {
    forall|i: int| 0 <= i < s.len() ==> is_digit(s[i])
}

/// The value of `s` read as an unsigned decimal with an optional leading
/// `+`, or nothing when `s` is not such a number or it exceeds `usize::MAX`.
pub open spec fn spec_parse_usize(s: Seq<u8>) -> Option<int> {
    let t = if s.len() > 0 && s[0] == 0x2b {
        s.skip(1)
    } else {
        s
    };
    if t.len() > 0 && all_digits(t) && digits_val(t) <= usize::MAX {
        Some(digits_val(t))
    } else {
        None
    }
}

/// Decimal digit bytes of `n`, most significant first, without sign or
/// leading zeros (a single `0` for zero).
pub open spec fn spec_dec(n: int) -> Seq<u8>
    decreases n,
{
    if n <= 9 {
        seq![(0x30 + (if 0 <= n { n } else { 0 })) as u8]
    } else {
        spec_dec(n / 10).push((0x30 + n % 10) as u8)
    }
}

/// The value of an all-digit sequence is nonnegative.
pub proof fn lemma_digits_nonneg(s: Seq<u8>)
    requires
        all_digits(s),
    ensures
        digits_val(s) >= 0,
    decreases s.len(),
{
    if s.len() > 0 {
        assert(all_digits(s.drop_last()));
        lemma_digits_nonneg(s.drop_last());
    }
}

/// The value of an all-digit sequence is at least the value of any prefix.
pub proof fn lemma_digits_prefix_le(s: Seq<u8>, i: int)
    requires
        all_digits(s),
        0 <= i <= s.len(),
    ensures
        digits_val(s.take(i)) <= digits_val(s),
    decreases s.len() - i,
{
    if i < s.len() {
        lemma_digits_prefix_le(s, i + 1);
        assert(s.take(i + 1).drop_last() =~= s.take(i));
        assert(all_digits(s.take(i + 1)));
        assert(all_digits(s.take(i)));
        lemma_digits_nonneg(s.take(i));
        assert(digits_val(s.take(i + 1)) == digits_val(s.take(i)) * 10 + (s[i] - 0x30));
        assert(digits_val(s.take(i)) <= digits_val(s.take(i + 1)));
    } else {
        assert(s.take(i) =~= s);
    }
}

/// Relies on `String::from_utf8`: it succeeds exactly on valid UTF-8 input,
/// and the returned string's characters encode back to the input bytes.
#[verifier::external_body]
pub fn bytes_to_utf8(v: Vec<u8>) -> (r: Option<String>)
    ensures
        r is Some <==> vstd::utf8::valid_utf8(v@),
        r matches Some(s) ==> vstd::utf8::encode_utf8(s@) == v@,
{
    match String::from_utf8(v) {
        Ok(s) => Some(s),
        Err(_) => None,
    }
}

/// Relies on `core::str::from_utf8`: it succeeds exactly on valid UTF-8 input.
#[verifier::external_body]
pub fn is_utf8(v: &[u8]) -> (r: bool)
    ensures
        r == vstd::utf8::valid_utf8(v@),
{
    core::str::from_utf8(v).is_ok()
}

/// ASCII whitespace test.
pub fn is_ws_byte(b: u8) -> (r: bool)
    ensures
        r == is_ws(b),
{
    b == 0x20 || (0x09 <= b && b <= 0x0d)
}

/// Byte-slice equality.
#[verifier::loop_isolation(false)]
pub fn bytes_eq(a: &[u8], b: &[u8]) -> (r: bool)
    ensures
        r == (a@ == b@),
{
    if a.len() != b.len() {
        return false;
    }
    let mut i: usize = 0;
    while i < a.len()
        invariant
            i <= a@.len(),
            a@.len() == b@.len(),
            forall|j: int| 0 <= j < i ==> a@[j] == b@[j],
        decreases a@.len() - i,
    {
        if a[i] != b[i] {
            return false;
        }
        i = i + 1;
    }
    assert(a@ =~= b@);
    true
}

/// `p` is a prefix of `s`.
pub fn starts_with_bytes(s: &[u8], p: &[u8]) -> (r: bool)
    ensures
        r == spec_starts_with(s@, p@),
{
    if s.len() < p.len() {
        return false;
    }
    bytes_eq(slice_subrange(s, 0, p.len()), p)
}

/// `p` is a suffix of `s`.
pub fn ends_with_bytes(s: &[u8], p: &[u8]) -> (r: bool)
    ensures
        r == spec_ends_with(s@, p@),
{
    if s.len() < p.len() {
        return false;
    }
    bytes_eq(slice_subrange(s, s.len() - p.len(), s.len()), p)
}

/// Offset of the first occurrence of `pat` in `s`, if any.
#[verifier::loop_isolation(false)]
pub fn find_sub(s: &[u8], pat: &[u8]) -> (r: Option<usize>)
    requires
        pat@.len() >= 1,
    ensures
        match r {
            Some(i) => spec_find(s@, pat@, 0) == i as int,
            None => spec_find(s@, pat@, 0) == -1,
        },
{
    if s.len() < pat.len() {
        return None;
    }
    let bound = s.len() - pat.len();
    let mut i: usize = 0;
    while i <= bound
        invariant
            bound == s@.len() - pat@.len(),
            pat@.len() >= 1,
            0 <= i <= bound + 1,
            spec_find(s@, pat@, 0) == spec_find(s@, pat@, i as int),
        decreases bound + 1 - i,
    {
        if bytes_eq(slice_subrange(s, i, i + pat.len()), pat) {
            assert(match_at(s@, pat@, i as int));
            return Some(i);
        }
        assert(!match_at(s@, pat@, i as int));
        i = i + 1;
    }
    assert(spec_find(s@, pat@, i as int) == -1);
    None
}

/// Copy of the piece `s[a..b]`.
pub fn subvec(s: &[u8], a: usize, b: usize) -> (r: Vec<u8>)
    requires
        a <= b <= s@.len(),
    ensures
        r@ == s@.subrange(a as int, b as int),
{
    slice_to_vec(slice_subrange(s, a, b))
}

/// Append a byte slice to a byte vector.
#[verifier::loop_isolation(false)]
pub fn push_bytes(out: &mut Vec<u8>, s: &[u8])
    ensures
        final(out)@ == old(out)@ + s@,
{
    let mut i: usize = 0;
    while i < s.len()
        invariant
            i <= s@.len(),
            out@ == old(out)@ + s@.take(i as int),
        decreases s@.len() - i,
    {
        out.push(s[i]);
        assert(old(out)@ + s@.take(i as int + 1) =~= (old(out)@ + s@.take(i as int)).push(s@[i as int]));
        i = i + 1;
    }
    assert(s@.take(s@.len() as int) =~= s@);
}

/// The pieces of `s` between occurrences of `pat`.
pub fn split_bytes(s: &[u8], pat: &[u8]) -> (r: Vec<Vec<u8>>)
    requires
        pat@.len() >= 1,
    ensures
        r.deep_view() == spec_split(s@, pat@),
{
    let mut acc: Vec<Vec<u8>> = Vec::new();
    let mut rest: &[u8] = s;
    loop
        invariant_except_break
            pat@.len() >= 1,
            acc.deep_view() + spec_split(rest@, pat@) == spec_split(s@, pat@),
        ensures
            acc.deep_view() == spec_split(s@, pat@),
        decreases rest@.len(),
    {
        let ghost pre = acc.deep_view();
        match find_sub(rest, pat) {
            Some(i) => {
                proof {
                    lemma_find(rest@, pat@, 0);
                }
                assert(i as int + pat@.len() <= rest@.len());
                let piece = subvec(rest, 0, i);
                let ghost old_rest = rest@;
                acc.push(piece);
                proof {
                    assert(acc.deep_view() =~~= pre.push(old_rest.subrange(0, i as int)));
                    assert(pre.push(old_rest.subrange(0, i as int))
                        =~~= pre + seq![old_rest.subrange(0, i as int)]);
                }
                let rl = rest.len();
                rest = slice_subrange(rest, i + pat.len(), rl);
                proof {
                    assert(spec_split(old_rest, pat@) =~~= seq![old_rest.subrange(0, i as int)]
                        + spec_split(rest@, pat@));
                    assert(acc.deep_view() + spec_split(rest@, pat@) =~~= pre + spec_split(
                        old_rest,
                        pat@,
                    ));
                }
            },
            None => {
                acc.push(slice_to_vec(rest));
                proof {
                    assert(spec_split(rest@, pat@) =~~= seq![rest@]);
                    assert(acc.deep_view() =~~= pre.push(rest@));
                    assert(acc.deep_view() =~~= pre + spec_split(rest@, pat@));
                }
                break ;
            },
        }
    }
    acc
}

/// At most `n` pieces of `s` between occurrences of `pat`.
pub fn splitn_bytes(s: &[u8], pat: &[u8], n: usize) -> (r: Vec<Vec<u8>>)
    requires
        pat@.len() >= 1,
        n >= 1,
    ensures
        r.deep_view() == spec_splitn(s@, pat@, n as int),
{
    let mut acc: Vec<Vec<u8>> = Vec::new();
    let mut rest: &[u8] = s;
    let mut left: usize = n;
    loop
        invariant_except_break
            pat@.len() >= 1,
            left >= 1,
            acc.deep_view() + spec_splitn(rest@, pat@, left as int) == spec_splitn(s@, pat@, n as int),
        ensures
            acc.deep_view() == spec_splitn(s@, pat@, n as int),
        decreases left,
    {
        let ghost pre = acc.deep_view();
        if left == 1 {
            acc.push(slice_to_vec(rest));
            proof {
                assert(spec_splitn(rest@, pat@, 1) =~~= seq![rest@]);
                assert(acc.deep_view() =~~= pre.push(rest@));
                assert(acc.deep_view() =~~= pre + spec_splitn(rest@, pat@, 1));
            }
            break ;
        }
        match find_sub(rest, pat) {
            Some(i) => {
                proof {
                    lemma_find(rest@, pat@, 0);
                }
                assert(i as int + pat@.len() <= rest@.len());
                let piece = subvec(rest, 0, i);
                let ghost old_rest = rest@;
                acc.push(piece);
                proof {
                    assert(acc.deep_view() =~~= pre.push(old_rest.subrange(0, i as int)));
                    assert(pre.push(old_rest.subrange(0, i as int))
                        =~~= pre + seq![old_rest.subrange(0, i as int)]);
                }
                let rl = rest.len();
                rest = slice_subrange(rest, i + pat.len(), rl);
                proof {
                    assert(spec_splitn(old_rest, pat@, left as int)
                        =~~= seq![old_rest.subrange(0, i as int)]
                        + spec_splitn(rest@, pat@, left as int - 1));
                    assert(acc.deep_view() + spec_splitn(rest@, pat@, left as int - 1) =~~= pre
                        + spec_splitn(old_rest, pat@, left as int));
                }
                left = left - 1;
            },
            None => {
                acc.push(slice_to_vec(rest));
                proof {
                    assert(spec_splitn(rest@, pat@, left as int) =~~= seq![rest@]);
                    assert(acc.deep_view() =~~= pre.push(rest@));
                    assert(acc.deep_view() =~~= pre + spec_splitn(rest@, pat@, left as int));
                }
                break ;
            },
        }
    }
    acc
}

/// `s` with ASCII whitespace removed at both ends.
#[verifier::loop_isolation(false)]
pub fn trim_bytes(s: &[u8]) -> (r: Vec<u8>)
    ensures
        r@ == spec_trim(s@),
{
    let mut lo: usize = 0;
    assert(s@.skip(0) =~= s@);
    while lo < s.len() && is_ws_byte(s[lo])
        invariant
            lo <= s@.len(),
            spec_trim_start(s@) == spec_trim_start(s@.skip(lo as int)),
        decreases s@.len() - lo,
    {
        assert(s@.skip(lo as int).skip(1) =~= s@.skip(lo as int + 1));
        lo = lo + 1;
    }
    assert(spec_trim_start(s@) == s@.skip(lo as int));
    let mut hi: usize = s.len();
    assert(s@.skip(lo as int) =~= s@.subrange(lo as int, s@.len() as int));
    while hi > lo && is_ws_byte(s[hi - 1])
        invariant
            lo <= hi <= s@.len(),
            spec_trim_end(s@.skip(lo as int)) == spec_trim_end(s@.subrange(lo as int, hi as int)),
        decreases hi,
    {
        assert(s@.subrange(lo as int, hi as int).drop_last() =~= s@.subrange(lo as int, hi as int - 1));
        hi = hi - 1;
    }
    assert(spec_trim(s@) == s@.subrange(lo as int, hi as int));
    subvec(s, lo, hi)
}

/// ASCII lower-casing of a byte slice.
#[verifier::loop_isolation(false)]
pub fn lower_bytes(s: &[u8]) -> (r: Vec<u8>)
    ensures
        r@ == spec_lower(s@),
{
    let mut out: Vec<u8> = Vec::new();
    let mut i: usize = 0;
    while i < s.len()
        invariant
            i <= s@.len(),
            out@ == spec_lower(s@).take(i as int),
        decreases s@.len() - i,
    {
        let b = s[i];
        let l: u8 = if 0x41 <= b && b <= 0x5a {
            b + 0x20
        } else {
            b
        };
        out.push(l);
        assert(spec_lower(s@).take(i as int + 1) =~= spec_lower(s@).take(i as int).push(
            lower_byte(s@[i as int]),
        ));
        i = i + 1;
    }
    assert(spec_lower(s@).take(s@.len() as int) =~= spec_lower(s@));
    out
}

/// Remove every space and newline byte.
#[verifier::loop_isolation(false)]
pub fn strip_blanks(s: &[u8]) -> (r: Vec<u8>)
    ensures
        r@ == clean_of(s@),
{
    let mut out: Vec<u8> = Vec::new();
    let mut i: usize = 0;
    proof {
        reveal(Seq::filter);
        assert(s@.take(0) =~= Seq::<u8>::empty());
    }
    while i < s.len()
        invariant
            i <= s@.len(),
            out@ == clean_of(s@.take(i as int)),
        decreases s@.len() - i,
    {
        let b = s[i];
        proof {
            reveal(Seq::filter);
            assert(s@.take(i as int + 1).drop_last() =~= s@.take(i as int));
            assert(s@.take(i as int + 1).last() == s@[i as int]);
        }
        if b != 0x20 && b != 0x0a {
            out.push(b);
        }
        i = i + 1;
    }
    assert(s@.take(s@.len() as int) =~= s@);
    out
}

/// Read `s` as an unsigned decimal with an optional leading `+`.
#[verifier::loop_isolation(false)]
pub fn parse_usize_bytes(s: &[u8]) -> (r: Option<usize>)
    ensures
        match r {
            Some(v) => spec_parse_usize(s@) == Some(v as int),
            None => spec_parse_usize(s@) is None,
        },
{
    let t: &[u8] = if s.len() > 0 && s[0] == 0x2b {
        slice_subrange(s, 1, s.len())
    } else {
        s
    };
    assert(t@ =~= (if s@.len() > 0 && s@[0] == 0x2b {
        s@.skip(1)
    } else {
        s@
    }));
    if t.len() == 0 {
        return None;
    }
    let mut acc: usize = 0;
    let mut i: usize = 0;
    while i < t.len()
        invariant
            i <= t@.len(),
            t@.len() > 0,
            all_digits(t@.take(i as int)),
            acc as int == digits_val(t@.take(i as int)),
        decreases t@.len() - i,
    {
        let b = t[i];
        if !(0x30 <= b && b <= 0x39) {
            assert(!is_digit(t@[i as int]));
            assert(!all_digits(t@));
            return None;
        }
        let d: usize = (b - 0x30) as usize;
        proof {
            assert(t@.take(i as int + 1).drop_last() =~= t@.take(i as int));
            assert(t@.take(i as int + 1).last() == t@[i as int]);
        }
        let next = match acc.checked_mul(10) {
            Some(m) => m.checked_add(d),
            None => None,
        };
        match next {
            Some(v) => {
                acc = v;
            },
            None => {
                proof {
                    assert(digits_val(t@.take(i as int + 1)) > usize::MAX);
                    if all_digits(t@) {
                        lemma_digits_prefix_le(t@, i as int + 1);
                        assert(digits_val(t@) > usize::MAX);
                    }
                }
                return None;
            },
        }
        assert(all_digits(t@.take(i as int + 1)));
        i = i + 1;
    }
    assert(t@.take(t@.len() as int) =~= t@);
    Some(acc)
}

/// Decimal rendering of `n`.
#[verifier::loop_isolation(false)]
pub fn dec_bytes(n: usize) -> (r: Vec<u8>)
    ensures
        r@ == spec_dec(n as int),
{
    let mut rev: Vec<u8> = Vec::new();
    let mut cur: usize = n;
    rev.push(((cur % 10) + 0x30) as u8);
    cur = cur / 10;
    proof {
        if n <= 9 {
            assert(rev@.reverse() =~= spec_dec(n as int));
        } else {
            assert(spec_dec(n as int) == spec_dec(n as int / 10).push((0x30 + n as int % 10) as u8));
            assert(spec_dec(cur as int) + rev@.reverse() =~= spec_dec(n as int));
        }
    }
    while cur > 0
        invariant
            spec_dec(n as int) == (if cur > 0 {
                spec_dec(cur as int)
            } else {
                Seq::<u8>::empty()
            }) + rev@.reverse(),
        decreases cur,
    {
        let ghost old_rev = rev@;
        let ghost old_cur = cur as int;
        let d: u8 = ((cur % 10) + 0x30) as u8;
        rev.push(d);
        cur = cur / 10;
        proof {
            assert(rev@.reverse() =~= seq![d] + old_rev.reverse());
            if old_cur <= 9 {
                assert(spec_dec(old_cur) =~= seq![d]);
                assert(spec_dec(n as int) =~= rev@.reverse());
            } else {
                assert(spec_dec(old_cur) == spec_dec(old_cur / 10).push((0x30 + old_cur % 10) as u8));
                assert(spec_dec(old_cur) =~= spec_dec(old_cur / 10) + seq![d]);
                assert(spec_dec(cur as int) + rev@.reverse() =~= spec_dec(n as int));
            }
        }
    }
    let mut out: Vec<u8> = Vec::new();
    let mut j: usize = rev.len();
    while j > 0
        invariant
            j <= rev@.len(),
            out@ == rev@.reverse().take(rev@.len() - j),
        decreases j,
    {
        j = j - 1;
        out.push(rev[j]);
        assert(rev@.reverse().take(rev@.len() - j) =~= rev@.reverse().take(rev@.len() - j - 1).push(
            rev@[j as int],
        ));
    }
    assert(rev@.reverse().take(rev@.len() as int) =~= rev@.reverse());
    out
}

} // verus!
