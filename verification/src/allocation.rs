//! Headers of the memory allocation request and response payloads.
use vstd::prelude::*;
use crate::buffer::WireItem;
use crate::bytes::{le_u64, lemma_u64_le_roundtrip, splice, u64_le};
use crate::MAX_HANDLE_LEN;

verus! {

/// `v` rounded up to a multiple of 32.
pub open spec fn align32(v: int) -> int {
    ((v + 31) / 32) * 32
}

/// Rounds `val` up to the next multiple of 32.
pub fn align_to_32(val: usize) -> (r: usize)
    requires
        val + 31 <= usize::MAX,
    ensures
        r == align32(val as int),
        r % 32 == 0,
        val <= r < val + 32,
{
    let x = val + 31;
    let r = x & !31usize;
    assert((x & !31usize) % 32 == 0 && (x & !31usize) <= x && x - (x & !31usize) < 32)
        by (bit_vector);
    r
}

/// Size in bytes of the header at the start of an allocation payload.
pub const ALLOC_META_SIZE: usize = 24;

/// Where the offsets of an allocation payload for `num_assets` assets lie:
/// the identifiers right after the header, the second array at the next
/// 32-byte boundary after them.
pub open spec fn alloc_second_offset(num_assets: u64) -> int {
    align32(ALLOC_META_SIZE + (num_assets as usize) * 32)
}

/// Whether the layout for `num_assets` assets can be computed in `usize`.
pub open spec fn alloc_layout_fits(num_assets: u64) -> bool {
    ALLOC_META_SIZE + (num_assets as usize) * 32 + 31 <= usize::MAX
}

/// Header of an allocation request: the number of assets, then where the
/// identifiers and the requested sizes lie in the payload.
#[derive(Copy, Clone, Debug)]
pub struct AllocRequestMeta {
    pub num_assets: u64,
    pub offset_uuids: usize,
    pub offset_sizes: usize,
}

impl AllocRequestMeta {
    /// The header for a request about `num_assets` assets.
    pub fn new(num_assets: u64) -> (m: AllocRequestMeta)
        requires
            alloc_layout_fits(num_assets),
        ensures
            m.num_assets == num_assets,
            m.offset_uuids == ALLOC_META_SIZE,
            m.offset_sizes == alloc_second_offset(num_assets),
    {
        let count = num_assets as usize;
        let offset_uuids = ALLOC_META_SIZE;
        let offset_sizes = align_to_32(offset_uuids + count * 32);
        AllocRequestMeta { num_assets, offset_uuids, offset_sizes }
    }
}

/// A registry of the shared-memory slabs in use.
#[derive(Clone, Copy, Debug)]
pub struct SlabRegistry {
    pub num_slabs: u64,
    pub slab_handles: [[u8; MAX_HANDLE_LEN]; 64],
}

/// Header of an allocation response: the number of assets, then where the
/// identifiers and the packed pointers lie in the payload.
#[derive(Copy, Clone, Debug)]
pub struct AllocResponseMeta {
    pub num_assets: u64,
    pub offset_uuids: usize,
    pub offset_packed_ptrs: usize,
}

impl AllocResponseMeta {
    /// The header for a response about `num_assets` assets.
    pub fn new(num_assets: u64) -> (m: AllocResponseMeta)
        requires
            alloc_layout_fits(num_assets),
        ensures
            m.num_assets == num_assets,
            m.offset_uuids == ALLOC_META_SIZE,
            m.offset_packed_ptrs == alloc_second_offset(num_assets),
    {
        let count = num_assets as usize;
        let offset_uuids = ALLOC_META_SIZE;
        let offset_packed_ptrs = align_to_32(offset_uuids + count * 32);
        AllocResponseMeta { num_assets, offset_uuids, offset_packed_ptrs }
    }
}

/// The image of three 64-bit words.
pub open spec fn three_words(a: u64, b: u64, c: u64) -> Seq<u8> {
    u64_le(a) + u64_le(b) + u64_le(c)
}

pub proof fn lemma_three_words(a: u64, b: u64, c: u64)
    ensures
        three_words(a, b, c).len() == 24,
        le_u64(three_words(a, b, c).subrange(0, 8)) == a,
        le_u64(three_words(a, b, c).subrange(8, 16)) == b,
        le_u64(three_words(a, b, c).subrange(16, 24)) == c,
{
    lemma_u64_le_roundtrip(a);
    lemma_u64_le_roundtrip(b);
    lemma_u64_le_roundtrip(c);
    assert(three_words(a, b, c).subrange(0, 8) =~= u64_le(a));
    assert(three_words(a, b, c).subrange(8, 16) =~= u64_le(b));
    assert(three_words(a, b, c).subrange(16, 24) =~= u64_le(c));
}

fn put_three_words(out: &mut [u8], at: usize, a: u64, b: u64, c: u64)
    requires
        at + 24 <= old(out)@.len(),
    ensures
        final(out)@ == splice(old(out)@, at as int, three_words(a, b, c)),
{
    let _ = out.len();
    crate::bytes::put_u64_le(out, at, a);
    crate::bytes::put_u64_le(out, at + 8, b);
    crate::bytes::put_u64_le(out, at + 16, c);
    proof {
        lemma_three_words(a, b, c);
        lemma_u64_le_roundtrip(a);
        lemma_u64_le_roundtrip(b);
        lemma_u64_le_roundtrip(c);
        assert(final(out)@ =~= splice(old(out)@, at as int, three_words(a, b, c)));
    }
}

impl WireItem for AllocRequestMeta {
    open spec fn spec_wire_size() -> nat {
        24
    }

    open spec fn spec_to_wire(&self) -> Seq<u8> {
        three_words(self.num_assets, self.offset_uuids as u64, self.offset_sizes as u64)
    }

    open spec fn spec_from_wire(bytes: Seq<u8>) -> AllocRequestMeta {
        AllocRequestMeta {
            num_assets: le_u64(bytes.subrange(0, 8)),
            offset_uuids: le_u64(bytes.subrange(8, 16)) as usize,
            offset_sizes: le_u64(bytes.subrange(16, 24)) as usize,
        }
    }

    fn wire_size() -> (n: usize) {
        24
    }

    fn to_wire(&self, out: &mut [u8], at: usize) {
        put_three_words(out, at, self.num_assets, self.offset_uuids as u64, self.offset_sizes as u64);
    }

    fn from_wire(src: &[u8], at: usize) -> (v: AllocRequestMeta) {
        let _ = src.len();
        let num_assets = crate::bytes::get_u64_le(src, at);
        let offset_uuids = crate::bytes::get_u64_le(src, at + 8) as usize;
        let offset_sizes = crate::bytes::get_u64_le(src, at + 16) as usize;
        proof {
            let b = src@.subrange(at as int, at + 24);
            assert(b.subrange(0, 8) =~= src@.subrange(at as int, at + 8));
            assert(b.subrange(8, 16) =~= src@.subrange(at + 8, at + 16));
            assert(b.subrange(16, 24) =~= src@.subrange(at + 16, at + 24));
        }
        AllocRequestMeta { num_assets, offset_uuids, offset_sizes }
    }

    proof fn lemma_wire_len(&self) {
        lemma_three_words(self.num_assets, self.offset_uuids as u64, self.offset_sizes as u64);
    }

    proof fn lemma_wire_roundtrip(&self) {
        lemma_three_words(self.num_assets, self.offset_uuids as u64, self.offset_sizes as u64);
    }
}

impl WireItem for AllocResponseMeta {
    open spec fn spec_wire_size() -> nat {
        24
    }

    open spec fn spec_to_wire(&self) -> Seq<u8> {
        three_words(self.num_assets, self.offset_uuids as u64, self.offset_packed_ptrs as u64)
    }

    open spec fn spec_from_wire(bytes: Seq<u8>) -> AllocResponseMeta {
        AllocResponseMeta {
            num_assets: le_u64(bytes.subrange(0, 8)),
            offset_uuids: le_u64(bytes.subrange(8, 16)) as usize,
            offset_packed_ptrs: le_u64(bytes.subrange(16, 24)) as usize,
        }
    }

    fn wire_size() -> (n: usize) {
        24
    }

    fn to_wire(&self, out: &mut [u8], at: usize) {
        put_three_words(
            out,
            at,
            self.num_assets,
            self.offset_uuids as u64,
            self.offset_packed_ptrs as u64,
        );
    }

    fn from_wire(src: &[u8], at: usize) -> (v: AllocResponseMeta) {
        let _ = src.len();
        let num_assets = crate::bytes::get_u64_le(src, at);
        let offset_uuids = crate::bytes::get_u64_le(src, at + 8) as usize;
        let offset_packed_ptrs = crate::bytes::get_u64_le(src, at + 16) as usize;
        proof {
            let b = src@.subrange(at as int, at + 24);
            assert(b.subrange(0, 8) =~= src@.subrange(at as int, at + 8));
            assert(b.subrange(8, 16) =~= src@.subrange(at + 8, at + 16));
            assert(b.subrange(16, 24) =~= src@.subrange(at + 16, at + 24));
        }
        AllocResponseMeta { num_assets, offset_uuids, offset_packed_ptrs }
    }

    proof fn lemma_wire_len(&self) {
        lemma_three_words(self.num_assets, self.offset_uuids as u64, self.offset_packed_ptrs as u64);
    }

    proof fn lemma_wire_roundtrip(&self) {
        lemma_three_words(self.num_assets, self.offset_uuids as u64, self.offset_packed_ptrs as u64);
    }
}

} // verus!
