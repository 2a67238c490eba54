//! Embedding an armored signature as the `gpgsig` header, and taking it out.
use vstd::prelude::*;
use crate::commit::{
    Commit, CommitModel, encoded, fixed_lines, extra_lines, header_line, header_view,
    gpgsig_key, gpgsig_word,
};
use crate::fold::{folded, unfolded, lemma_unfold_fold};

verus! {

/// ASCII whitespace: space, tab, line feed, vertical tab, form feed, carriage return.
pub open spec fn is_space(b: u8) -> bool {
    b == 32 || (9 <= b && b <= 13)
}

/// `s` without its trailing whitespace.
pub open spec fn trim_end(s: Seq<u8>) -> Seq<u8>
    decreases s.len(),
{
    if s.len() > 0 && is_space(s.last()) {
        trim_end(s.drop_last())
    } else {
        s
    }
}

/// `s` without its leading whitespace.
pub open spec fn trim_start(s: Seq<u8>) -> Seq<u8>
    decreases s.len(),
{
    if s.len() > 0 && is_space(s[0]) {
        trim_start(s.drop_first())
    } else {
        s
    }
}

/// `s` without leading and trailing whitespace.
pub open spec fn trimmed(s: Seq<u8>) -> Seq<u8> {
    trim_start(trim_end(s))
}

proof fn lemma_trim_end_edge(s: Seq<u8>)
    ensures
        trim_end(s).len() == 0 || !is_space(trim_end(s).last()),
    decreases s.len(),
{
    if s.len() > 0 && is_space(s.last()) {
        lemma_trim_end_edge(s.drop_last());
    }
}

proof fn lemma_trim_start_edge(s: Seq<u8>)
    requires
        s.len() == 0 || !is_space(s.last()),
    ensures
        trim_start(s).len() == 0 || (!is_space(trim_start(s)[0]) && !is_space(trim_start(s).last())),
    decreases s.len(),
{
    if s.len() > 0 && is_space(s[0]) {
        if s.len() > 1 {
            assert(s.drop_first().last() == s.last());
        }
        lemma_trim_start_edge(s.drop_first());
    }
}

/// A trimmed value is empty or starts and ends with a byte that is not
/// whitespace; in particular it never ends in a line feed, so its folded form
/// never ends in an empty continuation line.
pub proof fn lemma_trimmed_edges(s: Seq<u8>)
    ensures
        trimmed(s).len() == 0 || (!is_space(trimmed(s)[0]) && !is_space(trimmed(s).last())),
{
    lemma_trim_end_edge(s);
    lemma_trim_start_edge(trim_end(s));
}

/// The record with `("gpgsig", sig)` appended to its extra headers.
pub open spec fn signed(c: CommitModel, sig: Seq<u8>) -> CommitModel {
    CommitModel { extra_headers: c.extra_headers.push((gpgsig_key(), sig)), ..c }
}

/// No extra header carries the key `key`.
pub open spec fn lacks_header(hs: Seq<(Seq<u8>, Seq<u8>)>, key: Seq<u8>) -> bool {
    forall|i: int| 0 <= i < hs.len() ==> #[trigger] hs[i].0 != key
}

/// The value of the first extra header with key `key`.
pub open spec fn header_value(hs: Seq<(Seq<u8>, Seq<u8>)>, key: Seq<u8>) -> Option<Seq<u8>>
    decreases hs.len(),
{
    if hs.len() == 0 {
        None
    } else if hs[0].0 == key {
        Some(hs[0].1)
    } else {
        header_value(hs.drop_first(), key)
    }
}

/// The extra headers without those with key `key`, order kept.
pub open spec fn without_key(hs: Seq<(Seq<u8>, Seq<u8>)>, key: Seq<u8>) -> Seq<(Seq<u8>, Seq<u8>)>
    decreases hs.len(),
{
    if hs.len() == 0 {
        seq![]
    } else if hs.last().0 == key {
        without_key(hs.drop_last(), key)
    } else {
        without_key(hs.drop_last(), key).push(hs.last())
    }
}

/// The record with every `gpgsig` header removed.
pub open spec fn unsigned(c: CommitModel) -> CommitModel {
    CommitModel { extra_headers: without_key(c.extra_headers, gpgsig_key()), ..c }
}

/// Equality of two byte strings.
pub fn bytes_eq(a: &Vec<u8>, b: &Vec<u8>) -> (r: bool)
    ensures
        r == (a@ == b@),
{
    if a.len() != b.len() {
        return false;
    }
    let mut i: usize = 0;
    while i < a.len()
        invariant
            i <= a@.len(),
            a@.len() == b@.len(),
            forall|k: int| 0 <= k < i ==> a@[k] == b@[k],
        decreases a@.len() - i,
    {
        if a[i] != b[i] {
            return false;
        }
        i = i + 1;
    }
    proof {
        assert(a@ =~= b@);
    }
    true
}

/// A copy of a byte string.
pub fn copy_bytes(a: &Vec<u8>) -> (r: Vec<u8>)
    ensures
        r@ == a@,
{
    let r = a.clone();
    proof {
        assert(r@ =~= a@);
    }
    r
}

/// `s` without leading and trailing ASCII whitespace.
pub fn trim(s: &Vec<u8>) -> (r: Vec<u8>)
    ensures
        r@ == trimmed(s@),
{
    let mut hi: usize = s.len();
    proof {
        assert(s@.subrange(0, hi as int) =~= s@);
    }
    while hi > 0 && (s[hi - 1] == 32 || (9 <= s[hi - 1] && s[hi - 1] <= 13))
        invariant
            hi <= s@.len(),
            trim_end(s@) == trim_end(s@.subrange(0, hi as int)),
        decreases hi,
    {
        proof {
            assert(s@.subrange(0, hi as int).drop_last() =~= s@.subrange(0, hi - 1));
        }
        hi = hi - 1;
    }
    let ghost end = s@.subrange(0, hi as int);
    assert(trim_end(s@) == end);
    let mut lo: usize = 0;
    proof {
        assert(end.subrange(0, hi as int) =~= end);
    }
    while lo < hi && (s[lo] == 32 || (9 <= s[lo] && s[lo] <= 13))
        invariant
            lo <= hi <= s@.len(),
            end == s@.subrange(0, hi as int),
            trim_start(end) == trim_start(s@.subrange(lo as int, hi as int)),
        decreases hi - lo,
    {
        proof {
            assert(s@.subrange(lo as int, hi as int).drop_first() =~= s@.subrange(lo + 1, hi as int));
        }
        lo = lo + 1;
    }
    let mut r: Vec<u8> = Vec::new();
    let mut i: usize = lo;
    while i < hi
        invariant
            lo <= i <= hi <= s@.len(),
            r@ == s@.subrange(lo as int, i as int),
        decreases hi - i,
    {
        r.push(s[i]);
        i = i + 1;
        proof {
            assert(r@ =~= s@.subrange(lo as int, i as int));
        }
    }
    r
}

/// The record with `("gpgsig", sig)` appended to its extra headers.
pub fn with_signature(c: Commit, sig: Vec<u8>) -> (r: Commit)
    ensures
        r@ == signed(c@, sig@),
{
    let mut c = c;
    let ghost before = c@;
    let key = gpgsig_word();
    c.extra_headers.push((key, sig));
    proof {
        assert(c@.extra_headers =~= before.extra_headers.push((gpgsig_key(), sig@)));
    }
    c
}

/// The value of the first `gpgsig` header, if there is one.
pub fn signature_of(c: &Commit) -> (r: Option<Vec<u8>>)
    ensures
        match r {
            Some(v) => header_value(c@.extra_headers, gpgsig_key()) == Some(v@),
            None => header_value(c@.extra_headers, gpgsig_key()) is None,
        },
{
    let key = gpgsig_word();
    let ghost hs = c@.extra_headers;
    let mut i: usize = 0;
    proof {
        assert(hs.subrange(0, hs.len() as int) =~= hs);
    }
    while i < c.extra_headers.len()
        invariant
            i <= hs.len(),
            hs == c@.extra_headers,
            key@ == gpgsig_key(),
            header_value(hs, gpgsig_key()) == header_value(hs.subrange(i as int, hs.len() as int), gpgsig_key()),
        decreases hs.len() - i,
    {
        let h = &c.extra_headers[i];
        let ghost rest = hs.subrange(i as int, hs.len() as int);
        assert(rest[0] == header_view(*h));
        if bytes_eq(&h.0, &key) {
            return Some(copy_bytes(&h.1));
        }
        proof {
            assert(rest.drop_first() =~= hs.subrange(i + 1, hs.len() as int));
        }
        i = i + 1;
    }
    None
}

/// The record with every `gpgsig` header removed.
pub fn without_signature(c: Commit) -> (r: Commit)
    ensures
        r@ == unsigned(c@),
{
    let key = gpgsig_word();
    let ghost hs = c@.extra_headers;
    let mut kept: Vec<(Vec<u8>, Vec<u8>)> = Vec::new();
    let mut i: usize = 0;
    while i < c.extra_headers.len()
        invariant
            i <= hs.len(),
            hs == c@.extra_headers,
            key@ == gpgsig_key(),
            kept@.map_values(|h: (Vec<u8>, Vec<u8>)| header_view(h)) == without_key(
                hs.subrange(0, i as int),
                gpgsig_key(),
            ),
        decreases hs.len() - i,
    {
        let h = &c.extra_headers[i];
        let ghost prev = kept@;
        proof {
            let next = hs.subrange(0, i + 1);
            assert(next.drop_last() =~= hs.subrange(0, i as int));
            assert(next.last() == header_view(*h));
        }
        if !bytes_eq(&h.0, &key) {
            kept.push((copy_bytes(&h.0), copy_bytes(&h.1)));
            proof {
                assert(kept@.map_values(|h: (Vec<u8>, Vec<u8>)| header_view(h)) =~= prev.map_values(
                    |h: (Vec<u8>, Vec<u8>)| header_view(h),
                ).push(header_view(*h)));
            }
        }
        i = i + 1;
    }
    proof {
        assert(hs.subrange(0, hs.len() as int) =~= hs);
    }
    let mut c = c;
    c.extra_headers = kept;
    c
}

proof fn lemma_without_absent(hs: Seq<(Seq<u8>, Seq<u8>)>, key: Seq<u8>)
    requires
        lacks_header(hs, key),
    ensures
        without_key(hs, key) == hs,
    decreases hs.len(),
{
    if hs.len() > 0 {
        assert(hs.last() == hs[hs.len() - 1]);
        assert(lacks_header(hs.drop_last(), key)) by {
            assert forall|i: int| 0 <= i < hs.drop_last().len() implies #[trigger] hs.drop_last()[i].0 != key by {
                assert(hs.drop_last()[i] == hs[i]);
            }
        }
        lemma_without_absent(hs.drop_last(), key);
        assert(hs.drop_last().push(hs.last()) =~= hs);
    }
}

proof fn lemma_value_after_push(hs: Seq<(Seq<u8>, Seq<u8>)>, key: Seq<u8>, v: Seq<u8>)
    requires
        lacks_header(hs, key),
    ensures
        header_value(hs.push((key, v)), key) == Some(v),
    decreases hs.len(),
{
    let p = hs.push((key, v));
    if hs.len() > 0 {
        assert(hs[0].0 != key);
        assert(p[0] == hs[0]);
        assert(p.drop_first() =~= hs.drop_first().push((key, v)));
        assert(lacks_header(hs.drop_first(), key)) by {
            assert forall|i: int| 0 <= i < hs.drop_first().len() implies #[trigger] hs.drop_first()[i].0 != key by {
                assert(hs.drop_first()[i] == hs[i + 1]);
            }
        }
        lemma_value_after_push(hs.drop_first(), key, v);
    }
}

/// Signing a record that holds no signature, then reading the signature back:
/// the `gpgsig` header holds exactly the signature, removing it gives the
/// record back, the signed bytes are the unsigned bytes with the one folded
/// `gpgsig` line inserted before the blank line, and unfolding that line's
/// value gives the signature back.
pub proof fn lemma_signature_round_trip(c: CommitModel, sig: Seq<u8>)
    requires
        lacks_header(c.extra_headers, gpgsig_key()),
    ensures
        header_value(signed(c, sig).extra_headers, gpgsig_key()) == Some(sig),
        unsigned(signed(c, sig)) == c,
        encoded(c) == fixed_lines(c) + extra_lines(c.extra_headers) + seq![10u8] + c.message,
        encoded(signed(c, sig)) == fixed_lines(c) + extra_lines(c.extra_headers) + header_line(
            gpgsig_key(),
            sig,
        ) + seq![10u8] + c.message,
        unfolded(folded(sig)) == sig,
{
    let s = signed(c, sig);
    lemma_value_after_push(c.extra_headers, gpgsig_key(), sig);
    lemma_without_absent(c.extra_headers, gpgsig_key());
    assert(s.extra_headers.drop_last() =~= c.extra_headers);
    assert(unsigned(s).extra_headers == c.extra_headers);
    assert(extra_lines(s.extra_headers) == extra_lines(c.extra_headers) + header_line(gpgsig_key(), sig));
    assert(fixed_lines(s) == fixed_lines(c));
    lemma_unfold_fold(sig);
}

} // verus!
