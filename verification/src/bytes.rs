//! Byte-level helpers shared by both wire codecs: big-endian 16-bit fields
//! and copying a range out of a buffer.

use vstd::prelude::*;

verus! {

/// The two-byte big-endian form of a 16-bit value.
pub open spec fn be16(p: u16) -> Seq<u8> {
    seq![(p / 256) as u8, (p % 256) as u8]
}

/// The 16-bit value read from two big-endian bytes.
pub open spec fn be16_val(hi: u8, lo: u8) -> u16 {
    ((hi as int) * 256 + (lo as int)) as u16
}

/// Writing a 16-bit value big-endian and reading it back yields the value.
pub proof fn lemma_be16_round_trip(p: u16)
    ensures
        be16(p).len() == 2,
        be16_val(be16(p)[0], be16(p)[1]) == p,
{
    assert(p as int == (p as int / 256) * 256 + (p as int % 256)) by (nonlinear_arith);
    assert(0 <= p as int / 256 < 256) by (nonlinear_arith);
}

/// Reading two big-endian bytes and writing the value back yields the bytes.
pub proof fn lemma_be16_inverse(hi: u8, lo: u8)
    ensures
        be16(be16_val(hi, lo)) == seq![hi, lo],
{
    let v = (hi as int) * 256 + (lo as int);
    assert(v / 256 == hi as int && v % 256 == lo as int) by (nonlinear_arith)
        requires 0 <= hi < 256 && 0 <= lo < 256 && v == (hi as int) * 256 + (lo as int);
    assert(be16(be16_val(hi, lo)) =~= seq![hi, lo]);
}

/// Appends the big-endian encoding of `p` to `out`.
pub fn push_be16(out: &mut Vec<u8>, p: u16)
    ensures
        final(out)@ == old(out)@ + be16(p),
{
    proof {
        assert(0 <= p as int / 256 < 256) by (nonlinear_arith);
    }
    let hi: u8 = (p / 256) as u8;
    let lo: u8 = (p % 256) as u8;
    out.push(hi);
    out.push(lo);
    proof {
        assert(out@ =~= old(out)@ + be16(p));
    }
}

/// Reads the big-endian 16-bit value at position `i` of `s`.
pub fn read_be16(s: &Vec<u8>, i: usize) -> (r: u16)
    requires
        i + 2 <= s@.len(),
    ensures
        r == be16_val(s@[i as int], s@[i + 1]),
{
    let _len = s.len();
    let hi = s[i];
    let lo = s[i + 1];
    (hi as u16) * 256 + (lo as u16)
}

/// A sequence is the two pieces it splits into at any position.
pub proof fn lemma_concat_subranges(s: Seq<u8>, n: int)
    requires
        0 <= n <= s.len(),
    ensures
        s.subrange(0, n) + s.subrange(n, s.len() as int) == s,
{
    assert(s.subrange(0, n) + s.subrange(n, s.len() as int) =~= s);
}

/// Appends the whole of `s` to `out`.
pub fn push_all(out: &mut Vec<u8>, s: &Vec<u8>)
    ensures
        final(out)@ == old(out)@ + s@,
{
    let n = s.len();
    let mut i: usize = 0;
    while i < n
        invariant
            i <= n == s@.len(),
            out@ == old(out)@ + s@.subrange(0, i as int),
        decreases n - i,
    {
        out.push(s[i]);
        i = i + 1;
        proof {
            assert(out@ =~= old(out)@ + s@.subrange(0, i as int));
        }
    }
    proof {
        assert(out@ =~= old(out)@ + s@);
    }
}

/// Copies a byte vector.
pub fn copy_bytes(s: &Vec<u8>) -> (r: Vec<u8>)
    ensures
        r@ == s@,
{
    let r = copy_range(s, 0, s.len());
    proof {
        assert(s@.subrange(0, s@.len() as int) =~= s@);
    }
    r
}

/// Copies `s[from..to]` into a fresh vector.
pub fn copy_range(s: &Vec<u8>, from: usize, to: usize) -> (r: Vec<u8>)
    requires
        from <= to <= s@.len(),
    ensures
        r@ == s@.subrange(from as int, to as int),
{
    let mut r: Vec<u8> = Vec::new();
    let mut i: usize = from;
    while i < to
        invariant
            from <= i <= to <= s@.len(),
            r@ == s@.subrange(from as int, i as int),
        decreases to - i,
    {
        r.push(s[i]);
        i = i + 1;
        proof {
            assert(r@ =~= s@.subrange(from as int, i as int));
        }
    }
    r
}

} // verus!
