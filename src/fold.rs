//! Continuation folding of header values: every line feed inside a value is
//! followed by one space, so that a continuation line cannot be mistaken for
//! the next header.
use vstd::prelude::*;

verus! {

/// What one byte of a value becomes in the folded form.
pub open spec fn fold_byte(b: u8) -> Seq<u8> {
    if b == 10 {
        seq![10u8, 32u8]
    } else {
        seq![b]
    }
}

/// The folded form of a header value.
pub open spec fn folded(v: Seq<u8>) -> Seq<u8>
    decreases v.len(),
{
    if v.len() == 0 {
        seq![]
    } else {
        fold_byte(v[0]) + folded(v.drop_first())
    }
}

/// Decoding of a folded value: the one space after each line feed is dropped.
pub open spec fn unfolded(f: Seq<u8>) -> Seq<u8>
    decreases f.len(),
{
    if f.len() == 0 {
        seq![]
    } else if f.len() >= 2 && f[0] == 10 && f[1] == 32 {
        seq![10u8] + unfolded(f.subrange(2, f.len() as int))
    } else {
        seq![f[0]] + unfolded(f.drop_first())
    }
}

/// Folding distributes over concatenation.
pub proof fn lemma_folded_concat(a: Seq<u8>, b: Seq<u8>)
    ensures
        folded(a + b) == folded(a) + folded(b),
    decreases a.len(),
{
    if a.len() == 0 {
        assert(a + b =~= b);
    } else {
        lemma_folded_concat(a.drop_first(), b);
        assert((a + b).drop_first() =~= a.drop_first() + b);
        assert((a + b)[0] == a[0]);
        assert(folded(a + b) =~= folded(a) + folded(b));
    }
}

/// Decoding the folded form of any value gives the value back.
pub proof fn lemma_unfold_fold(v: Seq<u8>)
    ensures
        unfolded(folded(v)) == v,
    decreases v.len(),
{
    if v.len() > 0 {
        let rest = folded(v.drop_first());
        lemma_unfold_fold(v.drop_first());
        let f = folded(v);
        if v[0] == 10 {
            assert(f == seq![10u8, 32u8] + rest);
            assert(f.subrange(2, f.len() as int) =~= rest);
        } else {
            assert(f == seq![v[0]] + rest);
            assert(f.drop_first() =~= rest);
        }
        assert(v =~= seq![v[0]] + v.drop_first());
    }
}

/// A folded value holds no line feed that is not followed by a space.
pub proof fn lemma_folded_continuations(v: Seq<u8>, i: int)
    requires
        0 <= i < folded(v).len(),
        folded(v)[i] == 10,
    ensures
        i + 1 < folded(v).len(),
        folded(v)[i + 1] == 32,
    decreases v.len(),
{
    if v.len() > 0 {
        let rest = folded(v.drop_first());
        let k = fold_byte(v[0]).len() as int;
        if i >= k {
            assert(folded(v)[i] == rest[i - k]);
            lemma_folded_continuations(v.drop_first(), i - k);
            assert(folded(v)[i + 1] == rest[i - k + 1]);
        }
    }
}

/// The folded form of `v`.
pub fn fold_value(v: &Vec<u8>) -> (r: Vec<u8>)
    ensures
        r@ == folded(v@),
{
    let mut out: Vec<u8> = Vec::new();
    let mut i: usize = 0;
    while i < v.len()
        invariant
            i <= v@.len(),
            out@ == folded(v@.subrange(0, i as int)),
        decreases v@.len() - i,
    {
        let b = v[i];
        proof {
            lemma_folded_concat(v@.subrange(0, i as int), seq![b]);
            assert(v@.subrange(0, i + 1) =~= v@.subrange(0, i as int) + seq![b]);
            assert(seq![b].drop_first() =~= Seq::<u8>::empty());
            assert(folded(Seq::<u8>::empty()) == Seq::<u8>::empty());
            assert(seq![b][0] == b);
            assert(folded(seq![b]) =~= fold_byte(b));
        }
        if b == 10 {
            out.push(10);
            out.push(32);
        } else {
            out.push(b);
        }
        i = i + 1;
        proof {
            assert(out@ =~= folded(v@.subrange(0, i as int)));
        }
    }
    proof {
        assert(v@.subrange(0, v@.len() as int) =~= v@);
    }
    out
}

/// The value that the folded form `f` encodes.
pub fn unfold_value(f: &Vec<u8>) -> (r: Vec<u8>)
    ensures
        r@ == unfolded(f@),
{
    let mut out: Vec<u8> = Vec::new();
    let mut i: usize = 0;
    proof {
        assert(f@.subrange(0, f@.len() as int) =~= f@);
        assert(out@ + unfolded(f@) =~= unfolded(f@));
    }
    while i < f.len()
        invariant
            i <= f@.len(),
            out@ + unfolded(f@.subrange(i as int, f@.len() as int)) == unfolded(f@),
        decreases f@.len() - i,
    {
        let rest = Ghost(f@.subrange(i as int, f@.len() as int));
        if f[i] == 10 && i + 1 < f.len() && f[i + 1] == 32 {
            proof {
                assert(rest@.subrange(2, rest@.len() as int) =~= f@.subrange(i + 2, f@.len() as int));
            }
            out.push(10);
            i = i + 2;
        } else {
            proof {
                assert(rest@.drop_first() =~= f@.subrange(i + 1, f@.len() as int));
            }
            out.push(f[i]);
            i = i + 1;
        }
        proof {
            assert(out@ + unfolded(f@.subrange(i as int, f@.len() as int)) =~= unfolded(f@));
        }
    }
    proof {
        assert(f@.subrange(0, f@.len() as int) =~= f@);
        assert(f@.subrange(i as int, f@.len() as int) =~= Seq::<u8>::empty());
        assert(out@ =~= out@ + Seq::<u8>::empty());
    }
    out
}

} // verus!
