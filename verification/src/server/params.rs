//! Parameter maps and the key=value[&...] decoder shared by query strings
//! and URL-encoded POST bodies.

use vstd::prelude::*;

verus! {

use vstd::pervasive::VecAdditionalExecFns;
use crate::text::{
    spec_find, spec_split, spec_lower, spec_trim, match_at, lemma_find, lemma_find_at, find_sub,
    split_bytes, trim_bytes, lower_bytes, bytes_eq, subvec,
};

/// The byte `&`, separating parameters.
pub open spec fn amp() -> Seq<u8> {
    seq![0x26u8]
}

/// The byte `=`, separating a key from its value.
pub open spec fn eq_byte() -> Seq<u8> {
    seq![0x3du8]
}

/// First-match lookup in an entry sequence.
pub open spec fn kv_get(entries: Seq<(Seq<u8>, Seq<u8>)>, k: Seq<u8>) -> Option<Seq<u8>>
    decreases entries.len(),
{
    if entries.len() == 0 {
        None
    } else if entries[0].0 == k {
        Some(entries[0].1)
    } else {
        kv_get(entries.drop_first(), k)
    }
}

/// Option-valued lookup in a spec map.
pub open spec fn map_get(m: Map<Seq<u8>, Seq<u8>>, k: Seq<u8>) -> Option<Seq<u8>> {
    if m.contains_key(k) {
        Some(m[k])
    } else {
        None
    }
}

/// The entry sequence realizes the spec map: same lookups, and one entry
/// per key of the map.
pub open spec fn kv_agrees(entries: Seq<(Seq<u8>, Seq<u8>)>, m: Map<Seq<u8>, Seq<u8>>) -> bool {
    &&& forall|k: Seq<u8>| #![auto] kv_get(entries, k) == map_get(m, k)
    &&& entries.len() == m.dom().len()
}

/// There is no match exactly when no entry carries the key.
pub proof fn lemma_kv_none(entries: Seq<(Seq<u8>, Seq<u8>)>, k: Seq<u8>)
    ensures
        kv_get(entries, k) is None <==> forall|i: int| #![auto] 0 <= i < entries.len()
            ==> entries[i].0 != k,
    decreases entries.len(),
{
    if entries.len() == 0 {
    } else if entries[0].0 == k {
        assert(0 <= 0 < entries.len() && entries[0].0 == k);
    } else {
        lemma_kv_none(entries.drop_first(), k);
        assert(kv_get(entries, k) == kv_get(entries.drop_first(), k));
        if kv_get(entries.drop_first(), k) is None {
            assert forall|i: int| #![auto] 0 <= i < entries.len() implies entries[i].0 != k by {
                if i > 0 {
                    assert(entries.drop_first()[i - 1] == entries[i]);
                }
            }
        } else {
            assert(exists|i: int|
                #![auto]
                0 <= i < entries.drop_first().len() && entries.drop_first()[i].0 == k);
            let j = choose|i: int|
                #![auto]
                0 <= i < entries.drop_first().len() && entries.drop_first()[i].0 == k;
            assert(0 <= j + 1 < entries.len() && entries[j + 1].0 == k);
        }
    }
}

/// Updating the first entry that carries a key changes that key's lookup
/// and no other.
pub proof fn lemma_kv_update(entries: Seq<(Seq<u8>, Seq<u8>)>, j: int, kv: (Seq<u8>, Seq<u8>))
    requires
        0 <= j < entries.len(),
        entries[j].0 == kv.0,
        forall|i: int| #![auto] 0 <= i < j ==> entries[i].0 != kv.0,
    ensures
        kv_get(entries.update(j, kv), kv.0) == Some(kv.1),
        forall|k2: Seq<u8>| k2 != kv.0 ==> kv_get(entries.update(j, kv), k2) == kv_get(
            entries,
            k2,
        ),
    decreases j,
{
    let upd = entries.update(j, kv);
    if j == 0 {
        assert(upd[0] == kv);
        assert(upd.drop_first() =~= entries.drop_first());
    } else {
        assert(upd[0] == entries[0]);
        assert(upd.drop_first() =~= entries.drop_first().update(j - 1, kv));
        assert(forall|i: int| #![auto] 0 <= i < j - 1 ==> entries.drop_first()[i] == entries[i
            + 1]);
        lemma_kv_update(entries.drop_first(), j - 1, kv);
        assert(entries[0].0 != kv.0);
        assert(kv_get(upd, kv.0) == kv_get(upd.drop_first(), kv.0));
        assert(kv_get(upd.drop_first(), kv.0) == Some(kv.1));
        assert forall|k2: Seq<u8>| k2 != kv.0 implies kv_get(upd, k2) == kv_get(entries, k2) by {
            if entries[0].0 == k2 {
                assert(kv_get(upd, k2) == Some(upd[0].1));
                assert(kv_get(entries, k2) == Some(entries[0].1));
            } else {
                assert(kv_get(upd, k2) == kv_get(upd.drop_first(), k2));
                assert(kv_get(entries, k2) == kv_get(entries.drop_first(), k2));
                assert(kv_get(entries.drop_first().update(j - 1, kv), k2) == kv_get(
                    entries.drop_first(),
                    k2,
                ));
            }
        }
    }
}

/// Map from byte-string keys to byte-string values, stored as an entry
/// list with one entry per key; later insertions of a key replace the
/// earlier value.
#[derive(Debug)]
pub struct KvMap {
    entries: Vec<(Vec<u8>, Vec<u8>)>,
}

impl View for KvMap {
    type V = Seq<(Seq<u8>, Seq<u8>)>;

    closed spec fn view(&self) -> Seq<(Seq<u8>, Seq<u8>)> {
        Seq::new(self.entries@.len(), |i: int| (self.entries@[i].0@, self.entries@[i].1@))
    }
}

impl KvMap {
    /// Keys are pairwise distinct.
    pub open spec fn wf(&self) -> bool {
        forall|i: int, j: int| 0 <= i < j < self@.len() ==> self@[i].0 != self@[j].0
    }

    /// Empty map.
    pub fn new() -> (r: Self)
        ensures
            r@ == Seq::<(Seq<u8>, Seq<u8>)>::empty(),
            r.wf(),
    {
        let r = KvMap { entries: Vec::new() };
        proof {
            assert(r@ =~= Seq::<(Seq<u8>, Seq<u8>)>::empty());
        }
        r
    }

    /// Number of entries, one per key.
    pub fn len(&self) -> (r: usize)
        ensures
            r == self@.len(),
    {
        self.entries.len()
    }

    /// Key and value of the entry at `i`, for walking the map.
    pub fn entry(&self, i: usize) -> (r: (&Vec<u8>, &Vec<u8>))
        requires
            i < self@.len(),
        ensures
            r.0@ == self@[i as int].0,
            r.1@ == self@[i as int].1,
    {
        (&self.entries[i].0, &self.entries[i].1)
    }

    /// Value stored under `k`, if any.
    #[verifier::loop_isolation(false)]
    pub fn get(&self, k: &[u8]) -> (r: Option<&Vec<u8>>)
        ensures
            match r {
                Some(v) => kv_get(self@, k@) == Some(v@),
                None => kv_get(self@, k@) is None,
            },
    {
        let mut i: usize = 0;
        assert(self@.skip(0) =~= self@);
        while i < self.entries.len()
            invariant
                i <= self@.len(),
                kv_get(self@, k@) == kv_get(self@.skip(i as int), k@),
            decreases self@.len() - i,
        {
            proof {
                assert(self@.skip(i as int)[0] == self@[i as int]);
                assert(self@.skip(i as int).drop_first() =~= self@.skip(i as int + 1));
            }
            if bytes_eq(self.entries[i].0.as_slice(), k) {
                return Some(&self.entries[i].1);
            }
            i = i + 1;
        }
        None
    }

    /// Store `v` under `k`, replacing any earlier value of `k`.
    #[verifier::loop_isolation(false)]
    pub fn insert(&mut self, k: Vec<u8>, v: Vec<u8>)
        ensures
            kv_get(final(self)@, k@) == Some(v@),
            forall|k2: Seq<u8>| k2 != k@ ==> kv_get(final(self)@, k2) == kv_get(old(self)@, k2),
            final(self)@.len() == old(self)@.len() + (if kv_get(old(self)@, k@) is Some {
                0int
            } else {
                1int
            }),
            old(self).wf() ==> final(self).wf(),
    {
        let mut i: usize = 0;
        while i < self.entries.len()
            invariant
                i <= self@.len(),
                self == old(self),
                forall|j: int| #![auto] 0 <= j < i ==> self@[j].0 != k@,
            decreases self@.len() - i,
        {
            if bytes_eq(self.entries[i].0.as_slice(), k.as_slice()) {
                proof {
                    assert(old(self)@[i as int].0 == k@);
                    lemma_kv_none(old(self)@, k@);
                    assert(kv_get(old(self)@, k@) is Some);
                    lemma_kv_update(old(self)@, i as int, (k@, v@));
                }
                self.entries.set(i, (k, v));
                proof {
                    assert(self@ =~= old(self)@.update(i as int, (k@, v@)));
                    assert(forall|j: int| 0 <= j < self@.len() ==> self@[j].0
                        == old(self)@[j].0);
                }
                return ;
            }
            i = i + 1;
        }
        proof {
            lemma_kv_none(old(self)@, k@);
        }
        self.entries.push((k, v));
        proof {
            assert(self@.drop_last() =~= old(self)@);
            assert(self@[self@.len() - 1] == (k@, v@));
            assert forall|j: int| 0 <= j < self@.len() - 1 implies self@[j].0 != k@ by {
                assert(self@[j] == old(self)@[j]);
            }
            if old(self).wf() {
                assert forall|i: int, j: int| 0 <= i < j < self@.len() implies self@[i].0
                    != self@[j].0 by {
                    if j < self@.len() - 1 {
                        assert(self@[i] == old(self)@[i]);
                        assert(self@[j] == old(self)@[j]);
                    } else {
                        assert(self@[j].0 == k@);
                        assert(self@[i].0 != k@);
                    }
                }
            }
            assert(kv_get(self@, k@) == Some(v@)) by {
                lemma_kv_last(self@, k@, v@);
            }
            assert forall|k2: Seq<u8>| k2 != k@ implies kv_get(self@, k2) == kv_get(
                old(self)@,
                k2,
            ) by {
                lemma_kv_drop_last_other(self@, k2);
            }
        }
    }
}

/// A key absent from the front of the list is found in its last entry.
pub proof fn lemma_kv_last(entries: Seq<(Seq<u8>, Seq<u8>)>, k: Seq<u8>, v: Seq<u8>)
    requires
        entries.len() > 0,
        entries.last() == (k, v),
        forall|i: int| #![auto] 0 <= i < entries.len() - 1 ==> entries[i].0 != k,
    ensures
        kv_get(entries, k) == Some(v),
    decreases entries.len(),
{
    if entries.len() == 1 {
        assert(entries[0] == (k, v));
    } else {
        assert(entries[0].0 != k);
        assert(entries.drop_first().last() == (k, v));
        assert(forall|i: int| #![auto] 0 <= i < entries.drop_first().len() - 1
            ==> entries.drop_first()[i] == entries[i + 1]);
        lemma_kv_last(entries.drop_first(), k, v);
    }
}

/// Lookups of other keys ignore the last entry.
pub proof fn lemma_kv_drop_last_other(entries: Seq<(Seq<u8>, Seq<u8>)>, k2: Seq<u8>)
    requires
        entries.len() > 0,
        entries.last().0 != k2,
    ensures
        kv_get(entries, k2) == kv_get(entries.drop_last(), k2),
    decreases entries.len(),
{
    if entries.len() == 1 {
        assert(entries[0].0 != k2);
        assert(entries.drop_last().len() == 0);
    } else {
        assert(entries.drop_first().last() == entries.last());
        lemma_kv_drop_last_other(entries.drop_first(), k2);
        assert(entries.drop_first().drop_last() =~= entries.drop_last().drop_first());
        assert(entries.drop_last()[0] == entries[0]);
        if entries[0].0 == k2 {
            assert(kv_get(entries, k2) == Some(entries[0].1));
            assert(kv_get(entries.drop_last(), k2) == Some(entries.drop_last()[0].1));
        } else {
            assert(kv_get(entries, k2) == kv_get(entries.drop_first(), k2));
            assert(kv_get(entries.drop_last(), k2) == kv_get(
                entries.drop_last().drop_first(),
                k2,
            ));
            assert(kv_get(entries.drop_first(), k2) == kv_get(
                entries.drop_first().drop_last(),
                k2,
            ));
        }
    }
}

/// The map that the key=value decoder assigns to the first `n` segments:
/// each segment split once on `=`, its key trimmed and lower-cased, its
/// value trimmed, an absent `=` standing for an empty value; later
/// segments overwrite earlier ones.
pub open spec fn spec_params_upto(segs: Seq<Seq<u8>>, n: int) -> Map<Seq<u8>, Seq<u8>>
    decreases n,
{
    if n <= 0 {
        Map::empty()
    } else {
        let m = spec_params_upto(segs, n - 1);
        let p = segs[n - 1];
        let i = spec_find(p, eq_byte(), 0);
        if i >= 0 {
            m.insert(
                spec_lower(spec_trim(p.subrange(0, i))),
                spec_trim(p.subrange(i + 1, p.len() as int)),
            )
        } else {
            m.insert(spec_lower(spec_trim(p)), Seq::empty())
        }
    }
}

/// The map that the key=value decoder assigns to a raw query or body.
pub open spec fn spec_params(s: Seq<u8>) -> Map<Seq<u8>, Seq<u8>> {
    spec_params_upto(spec_split(s, amp()), spec_split(s, amp()).len() as int)
}

/// The decoder's maps have finitely many keys.
pub proof fn lemma_params_upto_finite(segs: Seq<Seq<u8>>, n: int)
    ensures
        spec_params_upto(segs, n).dom().finite(),
    decreases n,
{
    if n > 0 {
        lemma_params_upto_finite(segs, n - 1);
    }
}

/// Decode a raw `key=value&...` byte string into a parameter map.
#[verifier::loop_isolation(false)]
pub fn parse_parameters(raw: &[u8]) -> (r: KvMap)
    ensures
        r.wf(),
        kv_agrees(r@, spec_params(raw@)),
{
    broadcast use vstd::set::axiom_set_insert_len;

    let mut sep: Vec<u8> = Vec::new();
    sep.push(0x26);
    assert(sep@ =~= amp());
    let mut eqs: Vec<u8> = Vec::new();
    eqs.push(0x3d);
    assert(eqs@ =~= eq_byte());
    let segs = split_bytes(raw, sep.as_slice());
    let ghost gsegs = spec_split(raw@, amp());
    let mut m = KvMap::new();
    let mut n: usize = 0;
    proof {
        assert(spec_params_upto(gsegs, 0).dom() =~= Set::<Seq<u8>>::empty());
    }
    while n < segs.len()
        invariant
            n <= gsegs.len(),
            segs.deep_view() == gsegs,
            m.wf(),
            kv_agrees(m@, spec_params_upto(gsegs, n as int)),
        decreases gsegs.len() - n,
    {
        let p: &Vec<u8> = &segs[n];
        proof {
            assert(gsegs[n as int] =~= segs@[n as int]@);
            lemma_params_upto_finite(gsegs, n as int);
        }
        let ghost prev = spec_params_upto(gsegs, n as int);
        let key: Vec<u8>;
        let value: Vec<u8>;
        match find_sub(p.as_slice(), eqs.as_slice()) {
            Some(i) => {
                proof {
                    lemma_find(p@, eq_byte(), 0);
                }
                let pl = p.len();
                assert(i as int + 1 <= pl as int);
                let kb = subvec(p.as_slice(), 0, i);
                key = lower_bytes(trim_bytes(kb.as_slice()).as_slice());
                let vb = subvec(p.as_slice(), i + 1, pl);
                value = trim_bytes(vb.as_slice());
            },
            None => {
                key = lower_bytes(trim_bytes(p.as_slice()).as_slice());
                value = Vec::new();
                assert(value@ =~= Seq::<u8>::empty());
            },
        }
        let ghost gk = key@;
        let ghost gv = value@;
        proof {
            assert(spec_params_upto(gsegs, n as int + 1) == prev.insert(gk, gv));
        }
        m.insert(key, value);
        proof {
            assert(forall|k2: Seq<u8>| #![auto] kv_get(m@, k2) == map_get(
                prev.insert(gk, gv),
                k2,
            ));
            if prev.contains_key(gk) {
                assert(prev.dom().insert(gk) =~= prev.dom());
            }
        }
        n = n + 1;
    }
    assert(n as int == gsegs.len());
    m
}


/// A pair fit for the `k=v&...` wire form: the key free of `&` and `=`,
/// trimmed and lower-cased already; the value free of `&` and trimmed.
pub open spec fn wf_pair(p: (Seq<u8>, Seq<u8>)) -> bool {
    &&& forall|i: int| 0 <= i < p.0.len() ==> p.0[i] != 0x26 && p.0[i] != 0x3d
    &&& forall|i: int| 0 <= i < p.1.len() ==> p.1[i] != 0x26
    &&& spec_trim(p.0) == p.0
    &&& spec_lower(p.0) == p.0
    &&& spec_trim(p.1) == p.1
}

/// One pair in wire form: `key=value`.
pub open spec fn pair_seg(p: (Seq<u8>, Seq<u8>)) -> Seq<u8> {
    p.0 + eq_byte() + p.1
}

/// A pair list in wire form: its segments joined with `&`.
pub open spec fn spec_encode_pairs(pairs: Seq<(Seq<u8>, Seq<u8>)>) -> Seq<u8>
    decreases pairs.len(),
{
    if pairs.len() == 0 {
        Seq::empty()
    } else if pairs.len() == 1 {
        pair_seg(pairs[0])
    } else {
        pair_seg(pairs[0]) + amp() + spec_encode_pairs(pairs.drop_first())
    }
}

/// Splitting an encoded pair list on `&` recovers exactly its segments.
proof fn lemma_split_encoded(pairs: Seq<(Seq<u8>, Seq<u8>)>)
    requires
        pairs.len() >= 1,
        forall|i: int| 0 <= i < pairs.len() ==> wf_pair(#[trigger] pairs[i]),
    ensures
        spec_split(spec_encode_pairs(pairs), amp()) == pairs.map_values(
            |p: (Seq<u8>, Seq<u8>)| pair_seg(p),
        ),
    decreases pairs.len(),
{
    let s = spec_encode_pairs(pairs);
    let seg0 = pair_seg(pairs[0]);
    assert(wf_pair(pairs[0]));
    assert forall|j: int| 0 <= j < seg0.len() implies seg0[j] != 0x26 by {
        if j < pairs[0].0.len() {
            assert(seg0[j] == pairs[0].0[j]);
        } else if j == pairs[0].0.len() {
            assert(seg0[j] == 0x3d);
        } else {
            assert(seg0[j] == pairs[0].1[j - pairs[0].0.len() - 1]);
        }
    }
    if pairs.len() == 1 {
        assert(s == seg0);
        lemma_find(s, amp(), 0);
        if spec_find(s, amp(), 0) >= 0 {
            let r = spec_find(s, amp(), 0);
            assert(match_at(s, amp(), r));
            assert(s.subrange(r, r + 1)[0] == s[r]);
            assert(s[r] == 0x26);
        }
        assert(spec_split(s, amp()) =~~= pairs.map_values(|p: (Seq<u8>, Seq<u8>)| pair_seg(p)));
    } else {
        let rest = spec_encode_pairs(pairs.drop_first());
        assert(s == seg0 + amp() + rest);
        let l = seg0.len() as int;
        assert(s.subrange(l, l + 1) =~= amp());
        assert(match_at(s, amp(), l));
        assert forall|j: int| 0 <= j < l implies !match_at(s, amp(), j) by {
            if match_at(s, amp(), j) {
                assert(s.subrange(j, j + 1)[0] == s[j]);
                assert(s[j] == seg0[j]);
            }
        }
        lemma_find_at(s, amp(), l);
        assert(forall|i: int| #![auto] 0 <= i < pairs.drop_first().len() ==> pairs.drop_first()[i]
            == pairs[i + 1]);
        lemma_split_encoded(pairs.drop_first());
        assert(s.subrange(0, l) =~= seg0);
        assert(s.subrange(l + 1, s.len() as int) =~= rest);
        assert(spec_split(s, amp()) == seq![seg0] + spec_split(rest, amp()));
        assert(spec_split(s, amp()) =~~= pairs.map_values(|p: (Seq<u8>, Seq<u8>)| pair_seg(p)));
    }
}

/// Decoding one well-formed segment recovers its key and value.
proof fn lemma_decode_seg(p: (Seq<u8>, Seq<u8>))
    requires
        wf_pair(p),
    ensures
        spec_find(pair_seg(p), eq_byte(), 0) == p.0.len(),
        pair_seg(p).subrange(0, p.0.len() as int) == p.0,
        pair_seg(p).subrange(p.0.len() as int + 1, pair_seg(p).len() as int) == p.1,
{
    let seg = pair_seg(p);
    let l = p.0.len() as int;
    assert(seg.subrange(l, l + 1) =~= eq_byte());
    assert(match_at(seg, eq_byte(), l));
    assert forall|j: int| 0 <= j < l implies !match_at(seg, eq_byte(), j) by {
        if match_at(seg, eq_byte(), j) {
            assert(seg.subrange(j, j + 1)[0] == seg[j]);
            assert(seg[j] == p.0[j]);
        }
    }
    lemma_find_at(seg, eq_byte(), l);
    assert(seg.subrange(0, l) =~= p.0);
    assert(seg.subrange(l + 1, seg.len() as int) =~= p.1);
}

/// Decoding the first `n` encoded segments looks up as the first `n`
/// pairs do.
proof fn lemma_params_of_segs(pairs: Seq<(Seq<u8>, Seq<u8>)>, n: int)
    requires
        0 <= n <= pairs.len(),
        forall|i: int| 0 <= i < pairs.len() ==> wf_pair(#[trigger] pairs[i]),
        forall|i: int, j: int| 0 <= i < j < pairs.len() ==> pairs[i].0 != pairs[j].0,
    ensures
        forall|k: Seq<u8>| #![auto] map_get(
            spec_params_upto(pairs.map_values(|p: (Seq<u8>, Seq<u8>)| pair_seg(p)), n),
            k,
        ) == kv_get(pairs.take(n), k),
    decreases n,
{
    let segs = pairs.map_values(|p: (Seq<u8>, Seq<u8>)| pair_seg(p));
    if n == 0 {
        assert(forall|k: Seq<u8>| #![auto] kv_get(pairs.take(0), k) is None);
    } else {
        lemma_params_of_segs(pairs, n - 1);
        let p = pairs[n - 1];
        assert(wf_pair(p));
        lemma_decode_seg(p);
        assert(segs[n - 1] == pair_seg(p));
        let m = spec_params_upto(segs, n - 1);
        assert(spec_params_upto(segs, n) == m.insert(
            spec_lower(spec_trim(p.0)),
            spec_trim(p.1),
        ));
        assert(spec_params_upto(segs, n) == m.insert(p.0, p.1));
        let t = pairs.take(n);
        assert(t.last() == p);
        assert(t.drop_last() =~= pairs.take(n - 1));
        assert forall|k: Seq<u8>| #![auto] map_get(spec_params_upto(segs, n), k) == kv_get(
            t,
            k,
        ) by {
            if k == p.0 {
                assert forall|i: int| #![auto] 0 <= i < t.len() - 1 implies t[i].0 != p.0 by {
                    assert(t[i] == pairs[i]);
                }
                lemma_kv_last(t, p.0, p.1);
                assert(map_get(spec_params_upto(segs, n), k) == Some(p.1));
            } else {
                lemma_kv_drop_last_other(t, k);
                assert(map_get(m.insert(p.0, p.1), k) == map_get(m, k));
            }
        }
    }
}

/// Round trip: encoding a parameter list as `key=value&...` and decoding
/// it again yields exactly the original pairs, provided each key is
/// already trimmed, lower-cased and free of `&` and `=`, each value is
/// trimmed and free of `&`, and the keys are distinct.  The decoder does
/// not unescape, so escaping plays no part.
pub proof fn lemma_params_round_trip(pairs: Seq<(Seq<u8>, Seq<u8>)>)
    requires
        pairs.len() >= 1,
        forall|i: int| 0 <= i < pairs.len() ==> wf_pair(#[trigger] pairs[i]),
        forall|i: int, j: int| 0 <= i < j < pairs.len() ==> pairs[i].0 != pairs[j].0,
    ensures
        forall|k: Seq<u8>| #![auto] map_get(spec_params(spec_encode_pairs(pairs)), k) == kv_get(
            pairs,
            k,
        ),
{
    lemma_split_encoded(pairs);
    let segs = pairs.map_values(|p: (Seq<u8>, Seq<u8>)| pair_seg(p));
    assert(spec_split(spec_encode_pairs(pairs), amp()) == segs);
    lemma_params_of_segs(pairs, pairs.len() as int);
    assert(pairs.take(pairs.len() as int) =~= pairs);
}

} // verus!
