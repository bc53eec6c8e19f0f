use vstd::prelude::*;

verus! {

/// `s` with the octets from `start` on replaced by `t`.
pub open spec fn splice(s: Seq<u8>, start: int, t: Seq<u8>) -> Seq<u8> {
    s.subrange(0, start) + t + s.subrange(start + t.len(), s.len() as int)
}

/// The big-endian octets of `n`.
pub open spec fn u32_be_bytes(n: u32) -> Seq<u8> {
    seq![
        (n / 0x1000000) as u8,
        ((n / 0x10000) % 0x100) as u8,
        ((n / 0x100) % 0x100) as u8,
        (n % 0x100) as u8,
    ]
}

/// The number whose big-endian octets are the first four of `b`.
pub open spec fn be_u32_value(b: Seq<u8>) -> int {
    b[0] * 0x1000000 + b[1] * 0x10000 + b[2] * 0x100 + b[3]
}

/// Reading back the big-endian octets of a number gives the number.
pub proof fn lemma_u32_be_roundtrip(n: u32)
    ensures
        be_u32_value(u32_be_bytes(n)) == n,
        u32_be_bytes(n).len() == 4,
{
}

/// The big-endian octets of `n`.
pub fn u32_to_be_bytes(n: u32) -> (r: [u8; 4])
    ensures
        r@ == u32_be_bytes(n),
{
    let r = [
        (n / 0x1000000) as u8,
        ((n / 0x10000) % 0x100) as u8,
        ((n / 0x100) % 0x100) as u8,
        (n % 0x100) as u8,
    ];
    assert(r@ =~= u32_be_bytes(n));
    r
}

/// The number whose big-endian octets are `b0 b1 b2 b3`.
pub fn u32_from_be_bytes(b0: u8, b1: u8, b2: u8, b3: u8) -> (r: u32)
    ensures
        r == be_u32_value(seq![b0, b1, b2, b3]),
{
    (b0 as u32) * 0x1000000 + (b1 as u32) * 0x10000 + (b2 as u32) * 0x100 + (b3 as u32)
}

/// The octets of `s` from `start` up to `end`.
pub fn subslice(s: &[u8], start: usize, end: usize) -> (r: &[u8])
    requires
        start <= end <= s@.len(),
    ensures
        r@ == s@.subrange(start as int, end as int),
{
    &s[start..end]
}

/// A new vector with the octets of `s` from `start` up to `end`.
pub fn copy_range(s: &[u8], start: usize, end: usize) -> (r: Vec<u8>)
    requires
        start <= end <= s@.len(),
    ensures
        r@ == s@.subrange(start as int, end as int),
{
    let mut r: Vec<u8> = Vec::new();
    let mut i = start;
    while i < end
        invariant
            start <= i <= end <= s@.len(),
            r@ == s@.subrange(start as int, i as int),
        decreases end - i,
    {
        r.push(s[i]);
        i += 1;
        assert(r@ =~= s@.subrange(start as int, i as int));
    }
    r
}

/// Splicing `a` and then `b` right after it is splicing `a + b`.
pub proof fn lemma_splice_append(s: Seq<u8>, start: int, a: Seq<u8>, b: Seq<u8>)
    requires
        0 <= start,
        start + a.len() + b.len() <= s.len(),
    ensures
        splice(splice(s, start, a), start + a.len(), b) == splice(s, start, a + b),
{
    assert(splice(splice(s, start, a), start + a.len(), b) =~= splice(s, start, a + b));
}

} // verus!
