//! Byte-level building blocks: splicing, little-endian integers and the
//! search for a terminating zero byte.
use vstd::prelude::*;

verus! {

/// `base` with the bytes at `at .. at + bytes.len()` replaced by `bytes`.
pub open spec fn splice(base: Seq<u8>, at: int, bytes: Seq<u8>) -> Seq<u8> {
    base.take(at) + bytes + base.skip(at + bytes.len())
}

/// `n` zero bytes.
pub open spec fn zeros(n: nat) -> Seq<u8> {
    Seq::new(n, |i: int| 0u8)
}

/// The little-endian bytes of a `u16`.
pub open spec fn u16_le(v: u16) -> Seq<u8> {
    seq![(v & 0xff) as u8, ((v >> 8u16) & 0xff) as u8]
}

/// The little-endian bytes of a `u32`.
pub open spec fn u32_le(v: u32) -> Seq<u8> {
    seq![
        (v & 0xff) as u8,
        ((v >> 8u32) & 0xff) as u8,
        ((v >> 16u32) & 0xff) as u8,
        ((v >> 24u32) & 0xff) as u8,
    ]
}

/// The little-endian bytes of a `u64`.
pub open spec fn u64_le(v: u64) -> Seq<u8> {
    seq![
        (v & 0xff) as u8,
        ((v >> 8u64) & 0xff) as u8,
        ((v >> 16u64) & 0xff) as u8,
        ((v >> 24u64) & 0xff) as u8,
        ((v >> 32u64) & 0xff) as u8,
        ((v >> 40u64) & 0xff) as u8,
        ((v >> 48u64) & 0xff) as u8,
        ((v >> 56u64) & 0xff) as u8,
    ]
}

/// The `u16` whose little-endian bytes start `b`.
pub open spec fn le_u16(b: Seq<u8>) -> u16 {
    (b[0] as u16) | ((b[1] as u16) << 8u16)
}

/// The `u32` whose little-endian bytes start `b`.
pub open spec fn le_u32(b: Seq<u8>) -> u32 {
    (b[0] as u32) | ((b[1] as u32) << 8u32) | ((b[2] as u32) << 16u32) | ((b[3] as u32) << 24u32)
}

/// The `u64` whose little-endian bytes start `b`.
pub open spec fn le_u64(b: Seq<u8>) -> u64 {
    (b[0] as u64) | ((b[1] as u64) << 8u64) | ((b[2] as u64) << 16u64) | ((b[3] as u64) << 24u64)
        | ((b[4] as u64) << 32u64) | ((b[5] as u64) << 40u64) | ((b[6] as u64) << 48u64) | ((
    b[7] as u64) << 56u64)
}

/// Reading back the little-endian bytes of a `u16` gives the value.
pub proof fn lemma_u16_le_roundtrip(v: u16)
    ensures
        le_u16(u16_le(v)) == v,
        u16_le(v).len() == 2,
{
    let b0 = (v & 0xff) as u8;
    let b1 = ((v >> 8u16) & 0xff) as u8;
    assert(b0 == (v & 0xff) as u8 && b1 == ((v >> 8u16) & 0xff) as u8 ==> (b0 as u16) | ((
    b1 as u16) << 8u16) == v) by (bit_vector);
}

/// Reading back the little-endian bytes of a `u32` gives the value.
pub proof fn lemma_u32_le_roundtrip(v: u32)
    ensures
        le_u32(u32_le(v)) == v,
        u32_le(v).len() == 4,
{
    let b0 = (v & 0xff) as u8;
    let b1 = ((v >> 8u32) & 0xff) as u8;
    let b2 = ((v >> 16u32) & 0xff) as u8;
    let b3 = ((v >> 24u32) & 0xff) as u8;
    assert(b0 == (v & 0xff) as u8 && b1 == ((v >> 8u32) & 0xff) as u8 && b2 == ((v >> 16u32)
        & 0xff) as u8 && b3 == ((v >> 24u32) & 0xff) as u8 ==> (b0 as u32) | ((b1 as u32) << 8u32)
        | ((b2 as u32) << 16u32) | ((b3 as u32) << 24u32) == v) by (bit_vector);
}

/// Reading back the little-endian bytes of a `u64` gives the value.
pub proof fn lemma_u64_le_roundtrip(v: u64)
    ensures
        le_u64(u64_le(v)) == v,
        u64_le(v).len() == 8,
{
    let b0 = (v & 0xff) as u8;
    let b1 = ((v >> 8u64) & 0xff) as u8;
    let b2 = ((v >> 16u64) & 0xff) as u8;
    let b3 = ((v >> 24u64) & 0xff) as u8;
    let b4 = ((v >> 32u64) & 0xff) as u8;
    let b5 = ((v >> 40u64) & 0xff) as u8;
    let b6 = ((v >> 48u64) & 0xff) as u8;
    let b7 = ((v >> 56u64) & 0xff) as u8;
    assert(b0 == (v & 0xff) as u8 && b1 == ((v >> 8u64) & 0xff) as u8 && b2 == ((v >> 16u64)
        & 0xff) as u8 && b3 == ((v >> 24u64) & 0xff) as u8 && b4 == ((v >> 32u64) & 0xff) as u8
        && b5 == ((v >> 40u64) & 0xff) as u8 && b6 == ((v >> 48u64) & 0xff) as u8 && b7 == ((v
        >> 56u64) & 0xff) as u8 ==> (b0 as u64) | ((b1 as u64) << 8u64) | ((b2 as u64) << 16u64)
        | ((b3 as u64) << 24u64) | ((b4 as u64) << 32u64) | ((b5 as u64) << 40u64) | ((b6 as u64)
        << 48u64) | ((b7 as u64) << 56u64) == v) by (bit_vector);
}

/// Copies `src` into `buf` starting at `at`.
pub fn put_bytes(buf: &mut [u8], at: usize, src: &[u8])
    requires
        at + src@.len() <= old(buf)@.len(),
    ensures
        final(buf)@ == splice(old(buf)@, at as int, src@),
{
    let n = src.len();
    let blen = buf.len();
    let mut i: usize = 0;
    while i < n
        invariant
            n == src@.len(),
            blen == buf@.len(),
            at + n <= buf@.len(),
            buf@.len() == old(buf)@.len(),
            i <= n,
            buf@ == splice(old(buf)@, at as int, src@.take(i as int)),
        decreases n - i,
    {
        buf[at + i] = src[i];
        i = i + 1;
        assert(buf@ =~= splice(old(buf)@, at as int, src@.take(i as int)));
    }
    assert(src@.take(n as int) =~= src@);
}

/// Writes `v` little-endian at `at`.
pub fn put_u16_le(buf: &mut [u8], at: usize, v: u16)
    requires
        at + 2 <= old(buf)@.len(),
    ensures
        final(buf)@ == splice(old(buf)@, at as int, u16_le(v)),
{
    buf[at] = (v & 0xff) as u8;
    buf[at + 1] = ((v >> 8) & 0xff) as u8;
    assert(buf@ =~= splice(old(buf)@, at as int, u16_le(v)));
}

/// Writes `v` little-endian at `at`.
pub fn put_u32_le(buf: &mut [u8], at: usize, v: u32)
    requires
        at + 4 <= old(buf)@.len(),
    ensures
        final(buf)@ == splice(old(buf)@, at as int, u32_le(v)),
{
    buf[at] = (v & 0xff) as u8;
    buf[at + 1] = ((v >> 8) & 0xff) as u8;
    buf[at + 2] = ((v >> 16) & 0xff) as u8;
    buf[at + 3] = ((v >> 24) & 0xff) as u8;
    assert(buf@ =~= splice(old(buf)@, at as int, u32_le(v)));
}

/// Writes `v` little-endian at `at`.
pub fn put_u64_le(buf: &mut [u8], at: usize, v: u64)
    requires
        at + 8 <= old(buf)@.len(),
    ensures
        final(buf)@ == splice(old(buf)@, at as int, u64_le(v)),
{
    buf[at] = (v & 0xff) as u8;
    buf[at + 1] = ((v >> 8) & 0xff) as u8;
    buf[at + 2] = ((v >> 16) & 0xff) as u8;
    buf[at + 3] = ((v >> 24) & 0xff) as u8;
    buf[at + 4] = ((v >> 32) & 0xff) as u8;
    buf[at + 5] = ((v >> 40) & 0xff) as u8;
    buf[at + 6] = ((v >> 48) & 0xff) as u8;
    buf[at + 7] = ((v >> 56) & 0xff) as u8;
    assert(buf@ =~= splice(old(buf)@, at as int, u64_le(v)));
}

/// Reads the little-endian `u32` at `at`.
pub fn get_u32_le(buf: &[u8], at: usize) -> (v: u32)
    requires
        at + 4 <= buf@.len(),
    ensures
        v == le_u32(buf@.subrange(at as int, at + 4)),
{
    (buf[at] as u32) | ((buf[at + 1] as u32) << 8) | ((buf[at + 2] as u32) << 16) | ((buf[at
        + 3] as u32) << 24)
}

/// Reads the little-endian `u64` at `at`.
pub fn get_u64_le(buf: &[u8], at: usize) -> (v: u64)
    requires
        at + 8 <= buf@.len(),
    ensures
        v == le_u64(buf@.subrange(at as int, at + 8)),
{
    (buf[at] as u64) | ((buf[at + 1] as u64) << 8) | ((buf[at + 2] as u64) << 16) | ((buf[at
        + 3] as u64) << 24) | ((buf[at + 4] as u64) << 32) | ((buf[at + 5] as u64) << 40) | ((
    buf[at + 6] as u64) << 48) | ((buf[at + 7] as u64) << 56)
}

/// The position of the first zero byte of `data` at or after `from`, if any.
pub open spec fn find_zero(data: Seq<u8>, from: int) -> Option<int>
    decreases data.len() - from,
{
    if from < 0 || from >= data.len() {
        None
    } else if data[from] == 0 {
        Some(from)
    } else {
        find_zero(data, from + 1)
    }
}

/// Scans `data` from `from` for the first zero byte.
pub fn position_of_zero(data: &[u8], from: usize) -> (r: Option<usize>)
    ensures
        match r {
            Some(k) => find_zero(data@, from as int) == Some(k as int) && from <= k < data@.len()
                && data@[k as int] == 0,
            None => find_zero(data@, from as int) is None,
        },
{
    let n = data.len();
    let mut i = from;
    if i >= n {
        return None;
    }
    while i < n
        invariant
            n == data@.len(),
            from <= i <= n,
            find_zero(data@, from as int) == find_zero(data@, i as int),
        decreases n - i,
    {
        if data[i] == 0 {
            return Some(i);
        }
        i = i + 1;
    }
    None
}

/// When the bytes from `from` up to `k` are nonzero and the byte at `k` is
/// zero, the first zero at or after `from` is at `k`.
pub proof fn lemma_find_zero_at(data: Seq<u8>, from: int, k: int)
    requires
        0 <= from <= k < data.len(),
        data[k] == 0,
        forall|j: int| from <= j < k ==> data[j] != 0,
    ensures
        find_zero(data, from) == Some(k),
    decreases k - from,
{
    if from < k {
        lemma_find_zero_at(data, from + 1, k);
    }
}

/// Writing `pre` and then `piece` right after it is writing `pre + piece`.
pub proof fn lemma_splice_append(base: Seq<u8>, pre: Seq<u8>, piece: Seq<u8>)
    requires
        pre.len() + piece.len() <= base.len(),
    ensures
        splice(splice(base, 0, pre), pre.len() as int, piece) == splice(base, 0, pre + piece),
{
    assert(splice(splice(base, 0, pre), pre.len() as int, piece) =~= splice(base, 0, pre + piece));
}

/// The 64-byte array holding the first 64 bytes of `s`.
pub open spec fn array64_of(s: Seq<u8>) -> [u8; 64] {
    choose|a: [u8; 64]| a@ == s.take(64)
}

/// An array is the 64-byte array of any sequence that starts with its bytes.
pub proof fn lemma_array64_of(a: [u8; 64], s: Seq<u8>)
    requires
        a@ == s.take(64),
    ensures
        array64_of(s) == a,
{
    let b = array64_of(s);
    assert(b@ == s.take(64));
    assert(b@ =~= a@);
    assert(b =~= a);
}

/// Copies the 64 bytes at `at` into an array.
pub fn get_array64(src: &[u8], at: usize) -> (a: [u8; 64])
    requires
        at + 64 <= src@.len(),
    ensures
        a == array64_of(src@.subrange(at as int, at + 64)),
{
    let slen = src.len();
    let mut a = [0u8; 64];
    let mut i: usize = 0;
    while i < 64
        invariant
            slen == src@.len(),
            at + 64 <= src@.len(),
            i <= 64,
            forall|j: int| 0 <= j < i ==> #[trigger] a@[j] == src@[at + j],
        decreases 64 - i,
    {
        a[i] = src[at + i];
        i = i + 1;
    }
    proof {
        assert(a@ =~= src@.subrange(at as int, at + 64).take(64));
        lemma_array64_of(a, src@.subrange(at as int, at + 64));
    }
    a
}

} // verus!
