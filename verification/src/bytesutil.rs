//! Small executable helpers on byte vectors, and the result types shared by
//! the incremental decoders.

use vstd::prelude::*;

verus! {

/// Result of trying to parse one item from a byte sequence, at the
/// specification level. `Found(v, j)` means the item `v` was parsed and the
/// input is consumed up to (exclusive) position `j`; `Needs` means the input
/// ended before one whole item was seen; `Bad` means the input can never
/// begin with a well-formed item.
pub enum Parsed<T> {
    Found(T, int),
    Needs,
    Bad,
}

/// Executable counterpart of `Parsed`.
pub enum Scan<T> {
    Found(T, usize),
    Needs,
    Bad,
}

/// Big-endian 32-bit integer read from `s` at position `i`.
pub open spec fn be32_at(s: Seq<u8>, i: int) -> int {
    s[i] * 0x100_0000 + s[i + 1] * 0x1_0000 + s[i + 2] * 0x100 + s[i + 3]
}

/// Reads a big-endian 32-bit integer from `v` at position `i`.
pub fn read_be32(v: &Vec<u8>, i: usize) -> (r: u32)
    requires
        i + 4 <= v@.len(),
        v@.len() <= usize::MAX,
    ensures
        r == be32_at(v@, i as int),
{
    (v[i] as u32) * 0x100_0000 + (v[i + 1] as u32) * 0x1_0000 + (v[i + 2] as u32) * 0x100 + (v[i
        + 3] as u32)
}

/// Appends all of `src` to `dst`.
pub fn append_bytes(dst: &mut Vec<u8>, src: &[u8])
    ensures
        final(dst)@ == old(dst)@ + src@,
{
    let mut k: usize = 0;
    while k < src.len()
        invariant
            k <= src@.len(),
            dst@ == old(dst)@ + src@.subrange(0, k as int),
        decreases src@.len() - k,
    {
        dst.push(src[k]);
        k = k + 1;
        assert(dst@ == old(dst)@ + src@.subrange(0, k as int));
    }
    assert(src@.subrange(0, src@.len() as int) == src@);
}

/// Copies `v[i..v.len()]` into a fresh vector.
pub fn tail_from(v: &Vec<u8>, i: usize) -> (r: Vec<u8>)
    requires
        i <= v@.len(),
    ensures
        r@ == v@.subrange(i as int, v@.len() as int),
{
    let mut out: Vec<u8> = Vec::new();
    let mut k: usize = i;
    while k < v.len()
        invariant
            i <= k <= v@.len(),
            out@ == v@.subrange(i as int, k as int),
        decreases v@.len() - k,
    {
        out.push(v[k]);
        k = k + 1;
        assert(out@ == v@.subrange(i as int, k as int));
    }
    out
}

/// Copies `v[a..b]` into a fresh vector.
pub fn sub_vec(v: &Vec<u8>, a: usize, b: usize) -> (r: Vec<u8>)
    requires
        a <= b <= v@.len(),
    ensures
        r@ == v@.subrange(a as int, b as int),
{
    let mut out: Vec<u8> = Vec::new();
    let mut k: usize = a;
    while k < b
        invariant
            a <= k <= b <= v@.len(),
            out@ == v@.subrange(a as int, k as int),
        decreases b - k,
    {
        out.push(v[k]);
        k = k + 1;
        assert(out@ == v@.subrange(a as int, k as int));
    }
    out
}

/// True when the bytes of `a` equal the bytes of `b`.
pub fn bytes_eq(a: &[u8], b: &[u8]) -> (r: bool)
    ensures
        r == (a@ == b@),
{
    if a.len() != b.len() {
        assert(a@.len() != b@.len());
        return false;
    }
    let mut k: usize = 0;
    while k < a.len()
        invariant
            k <= a@.len(),
            a@.len() == b@.len(),
            forall|j: int| 0 <= j < k ==> a@[j] == b@[j],
        decreases a@.len() - k,
    {
        if a[k] != b[k] {
            return false;
        }
        k = k + 1;
    }
    assert(a@ =~= b@);
    true
}

} // verus!
