//! Byte strings: big-endian numbers and concatenation.

use vstd::prelude::*;

verus! {

/// The number that a byte string writes in base 256, most significant byte first.
pub open spec fn be_value(s: Seq<u8>) -> int
    decreases s.len(),
{
    if s.len() == 0 {
        0
    } else {
        be_value(s.drop_last()) * 256 + s.last() as int
    }
}

/// 256 to the power `n`.
pub open spec fn pow256(n: nat) -> int
    decreases n,
{
    if n == 0 {
        1
    } else {
        256 * pow256((n - 1) as nat)
    }
}

/// The two bytes of a 16-bit number, most significant first.
pub open spec fn be16_spec(x: u16) -> Seq<u8> {
    seq![(x / 256) as u8, (x % 256) as u8]
}

/// The eight bytes of a length, most significant first.
pub open spec fn be64_spec(x: int) -> Seq<u8> {
    seq![
        ((x / 0x100_0000_0000_0000) % 256) as u8,
        ((x / 0x1_0000_0000_0000) % 256) as u8,
        ((x / 0x100_0000_0000) % 256) as u8,
        ((x / 0x1_0000_0000) % 256) as u8,
        ((x / 0x100_0000) % 256) as u8,
        ((x / 0x1_0000) % 256) as u8,
        ((x / 0x100) % 256) as u8,
        (x % 256) as u8,
    ]
}

/// A byte string's value is below 256 to the power of its length.
pub proof fn lemma_be_value_bound(s: Seq<u8>)
    ensures
        0 <= be_value(s) < pow256(s.len()),
    decreases s.len(),
{
    if s.len() > 0 {
        lemma_be_value_bound(s.drop_last());
    }
}

/// Two byte strings of one length with one value are the same string.
pub proof fn lemma_be_value_injective(a: Seq<u8>, b: Seq<u8>)
    requires
        a.len() == b.len(),
        be_value(a) == be_value(b),
    ensures
        a == b,
    decreases a.len(),
{
    if a.len() > 0 {
        lemma_be_value_injective(a.drop_last(), b.drop_last());
        assert(a =~= a.drop_last().push(a.last()));
        assert(b =~= b.drop_last().push(b.last()));
    } else {
        assert(a =~= b);
    }
}

/// The value of a concatenation: the head shifted by the tail's length, plus the tail.
pub proof fn lemma_be_value_concat(a: Seq<u8>, b: Seq<u8>)
    ensures
        be_value(a + b) == be_value(a) * pow256(b.len()) + be_value(b),
    decreases b.len(),
{
    if b.len() == 0 {
        assert(a + b =~= a);
    } else {
        lemma_be_value_concat(a, b.drop_last());
        assert((a + b).drop_last() =~= a + b.drop_last());
        assert((a + b).last() == b.last());
        assert(be_value(a) * (256 * pow256((b.len() - 1) as nat)) == (be_value(a) * pow256(
            (b.len() - 1) as nat,
        )) * 256) by (nonlinear_arith);
    }
}

/// Zero bytes in front do not change a byte string's value.
pub proof fn lemma_be_value_leading_zeros(zeros: Seq<u8>, b: Seq<u8>)
    requires
        forall|i: int| 0 <= i < zeros.len() ==> zeros[i] == 0,
    ensures
        be_value(zeros + b) == be_value(b),
{
    lemma_be_value_concat(zeros, b);
    lemma_be_value_zero(zeros);
    assert(0 * pow256(b.len()) == 0) by (nonlinear_arith);
}

/// A string of zero bytes has the value zero.
pub proof fn lemma_be_value_zero(zeros: Seq<u8>)
    requires
        forall|i: int| 0 <= i < zeros.len() ==> zeros[i] == 0,
    ensures
        be_value(zeros) == 0,
    decreases zeros.len(),
{
    if zeros.len() > 0 {
        lemma_be_value_zero(zeros.drop_last());
    }
}

/// Where a byte string's value fits in its last `n` bytes, those bytes alone have that value.
pub proof fn lemma_be_value_low_bytes(s: Seq<u8>, n: nat)
    requires
        n <= s.len(),
        be_value(s) < pow256(n),
    ensures
        be_value(s.subrange(s.len() - n, s.len() as int)) == be_value(s),
{
    let hi = s.subrange(0, s.len() - n);
    let lo = s.subrange(s.len() - n, s.len() as int);
    assert(s =~= hi + lo);
    lemma_be_value_concat(hi, lo);
    lemma_be_value_bound(hi);
    lemma_be_value_bound(lo);
    let h = be_value(hi);
    let p = pow256(n);
    assert(h == 0) by (nonlinear_arith)
        requires
            h >= 0,
            p > 0,
            h * p + be_value(lo) < p,
            be_value(lo) >= 0,
    ;
    assert(0 * p == 0) by (nonlinear_arith);
}

/// The `len` bytes that write `v` in base 256, most significant byte first.
pub open spec fn be_bytes(v: int, len: nat) -> Seq<u8>
    decreases len,
{
    if len == 0 {
        Seq::<u8>::empty()
    } else {
        be_bytes(v / 256, (len - 1) as nat).push((v % 256) as u8)
    }
}

/// A number that fits in `len` bytes is the value of the bytes that write it.
pub proof fn lemma_be_bytes(v: int, len: nat)
    requires
        0 <= v < pow256(len),
    ensures
        be_bytes(v, len).len() == len,
        be_value(be_bytes(v, len)) == v,
    decreases len,
{
    if len > 0 {
        lemma_be_bytes(v / 256, (len - 1) as nat);
        let front = be_bytes(v / 256, (len - 1) as nat);
        assert(be_bytes(v, len).drop_last() =~= front);
    }
}

/// Writes a 16-bit number as two bytes, most significant first.
pub fn be16(x: u16) -> (r: [u8; 2])
    ensures
        r@ == be16_spec(x),
{
    let r = [(x / 256) as u8, (x % 256) as u8];
    assert(r@ =~= be16_spec(x));
    r
}

/// Reads two bytes as a 16-bit number, most significant first.
pub fn read_be16(hi: u8, lo: u8) -> (x: u16)
    ensures
        x == hi as int * 256 + lo as int,
        be16_spec(x) == seq![hi, lo],
{
    let x: u16 = (hi as u16) * 256 + (lo as u16);
    assert(be16_spec(x) =~= seq![hi, lo]);
    x
}

/// Writes a length as eight bytes, most significant first.
pub fn be64(x: u64) -> (r: [u8; 8])
    ensures
        r@ == be64_spec(x as int),
{
    let r = [
        ((x / 0x100_0000_0000_0000) % 256) as u8,
        ((x / 0x1_0000_0000_0000) % 256) as u8,
        ((x / 0x100_0000_0000) % 256) as u8,
        ((x / 0x1_0000_0000) % 256) as u8,
        ((x / 0x100_0000) % 256) as u8,
        ((x / 0x1_0000) % 256) as u8,
        ((x / 0x100) % 256) as u8,
        (x % 256) as u8,
    ];
    assert(r@ =~= be64_spec(x as int));
    r
}

/// Appends the bytes of `src` to `dst`.
pub fn append(dst: &mut Vec<u8>, src: &[u8])
    ensures
        final(dst)@ == old(dst)@ + src@,
{
    let mut i: usize = 0;
    while i < src.len()
        invariant
            i <= src.len(),
            dst@ == old(dst)@ + src@.subrange(0, i as int),
        decreases src.len() - i,
    {
        dst.push(src[i]);
        i += 1;
        assert(dst@ =~= old(dst)@ + src@.subrange(0, i as int));
    }
    assert(src@.subrange(0, src.len() as int) =~= src@);
}

/// Whether two byte strings are the same.
pub fn bytes_eq(a: &[u8], b: &[u8]) -> (r: bool)
    ensures
        r == (a@ == b@),
{
    if a.len() != b.len() {
        return false;
    }
    let mut i: usize = 0;
    while i < a.len()
        invariant
            i <= a.len(),
            a.len() == b.len(),
            forall|j: int| 0 <= j < i ==> a@[j] == b@[j],
        decreases a.len() - i,
    {
        if a[i] != b[i] {
            return false;
        }
        i += 1;
    }
    assert(a@ =~= b@);
    true
}

/// A copy of the bytes of `src` from `from` up to `to`.
pub fn copy_range(src: &[u8], from: usize, to: usize) -> (r: Vec<u8>)
    requires
        from <= to <= src.len(),
    ensures
        r@ == src@.subrange(from as int, to as int),
{
    let mut r: Vec<u8> = Vec::new();
    let mut i: usize = from;
    while i < to
        invariant
            from <= i <= to <= src.len(),
            r@ == src@.subrange(from as int, i as int),
        decreases to - i,
    {
        r.push(src[i]);
        i += 1;
        assert(r@ =~= src@.subrange(from as int, i as int));
    }
    r
}

} // verus!
