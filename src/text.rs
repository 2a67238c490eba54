//! Rendering of bytes as lowercase hexadecimal and of integers in decimal.
use vstd::prelude::*;

verus! {

/// The ASCII character of a single hexadecimal digit, lowercase.
pub open spec fn hex_digit(n: int) -> u8 {
    if n < 10 {
        (48 + n) as u8
    } else {
        (87 + n) as u8
    }
}

/// Lowercase hexadecimal rendering of a byte string, two digits per byte.
pub open spec fn hex_of(b: Seq<u8>) -> Seq<u8>
    decreases b.len(),
{
    if b.len() == 0 {
        seq![]
    } else {
        hex_of(b.drop_last()) + seq![hex_digit(b.last() as int / 16), hex_digit(b.last() as int % 16)]
    }
}

/// Decimal rendering of a natural number, without leading zeros.
pub open spec fn dec_of(n: nat) -> Seq<u8>
    decreases n,
{
    if n < 10 {
        seq![(48 + n) as u8]
    } else {
        dec_of(n / 10) + seq![(48 + n % 10) as u8]
    }
}

/// Decimal rendering of an integer, with a leading `-` when negative.
pub open spec fn signed_dec_of(n: int) -> Seq<u8> {
    if n < 0 {
        seq![45u8] + dec_of((-n) as nat)
    } else {
        dec_of(n as nat)
    }
}

/// Decimal rendering padded with zeros to at least two digits.
pub open spec fn dec2_of(n: nat) -> Seq<u8> {
    if n < 10 {
        seq![48u8] + dec_of(n)
    } else {
        dec_of(n)
    }
}

fn hex_digit_exec(n: u8) -> (r: u8)
    requires
        n < 16,
    ensures
        r == hex_digit(n as int),
{
    if n < 10 {
        48 + n
    } else {
        87 + n
    }
}

/// Appends the hexadecimal rendering of `b`.
pub fn push_hex(out: &mut Vec<u8>, b: &Vec<u8>)
    ensures
        final(out)@ == old(out)@ + hex_of(b@),
{
    let ghost start = out@;
    let mut i: usize = 0;
    while i < b.len()
        invariant
            i <= b@.len(),
            out@ == start + hex_of(b@.subrange(0, i as int)),
        decreases b@.len() - i,
    {
        let x = b[i];
        proof {
            let next = b@.subrange(0, i + 1);
            assert(next.drop_last() =~= b@.subrange(0, i as int));
            assert(next.last() == x);
        }
        out.push(hex_digit_exec(x / 16));
        out.push(hex_digit_exec(x % 16));
        i = i + 1;
        proof {
            assert(out@ =~= start + hex_of(b@.subrange(0, i as int)));
        }
    }
    proof {
        assert(b@.subrange(0, b@.len() as int) =~= b@);
    }
}

/// Appends the decimal rendering of `n`.
pub fn push_dec(out: &mut Vec<u8>, n: u64)
    ensures
        final(out)@ == old(out)@ + dec_of(n as nat),
    decreases n,
{
    if n >= 10 {
        push_dec(out, n / 10);
    }
    out.push(48 + (n % 10) as u8);
    proof {
        assert(out@ =~= old(out)@ + dec_of(n as nat));
    }
}

/// Appends the decimal rendering of a signed `n`.
pub fn push_signed_dec(out: &mut Vec<u8>, n: i64)
    ensures
        final(out)@ == old(out)@ + signed_dec_of(n as int),
{
    if n < 0 {
        out.push(45);
        let m: u64 = (-(n as i128)) as u64;
        push_dec(out, m);
        proof {
            assert(out@ =~= old(out)@ + signed_dec_of(n as int));
        }
    } else {
        push_dec(out, n as u64);
    }
}

/// Appends the decimal rendering of `n`, zero-padded to two digits.
pub fn push_dec2(out: &mut Vec<u8>, n: u64)
    ensures
        final(out)@ == old(out)@ + dec2_of(n as nat),
{
    if n < 10 {
        out.push(48);
        push_dec(out, n);
        proof {
            assert(out@ =~= old(out)@ + dec2_of(n as nat));
        }
    } else {
        push_dec(out, n);
    }
}

/// Appends every byte of `s`.
pub fn push_all(out: &mut Vec<u8>, s: &Vec<u8>)
    ensures
        final(out)@ == old(out)@ + s@,
{
    let ghost start = out@;
    let mut i: usize = 0;
    while i < s.len()
        invariant
            i <= s@.len(),
            out@ == start + s@.subrange(0, i as int),
        decreases s@.len() - i,
    {
        out.push(s[i]);
        i = i + 1;
        proof {
            assert(out@ =~= start + s@.subrange(0, i as int));
        }
    }
    proof {
        assert(s@.subrange(0, s@.len() as int) =~= s@);
    }
}

} // verus!
