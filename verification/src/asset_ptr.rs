use vstd::prelude::*;
use crate::buffer::WireItem;
use crate::bytes::{le_u64, u64_le, lemma_u64_le_roundtrip};

verus! {

/// Mask selecting the 48 offset bits of a packed asset pointer.
pub const OFFSET_MASK: u64 = 0x0000_FFFF_FFFF_FFFF;

/// The packed form of a slab index and an offset: the index in the top
/// 16 bits, the offset in the low 48 bits.
pub open spec fn pack(slab_index: u16, offset: u64) -> u64 {
    ((slab_index as u64) << 48u64) | (offset & OFFSET_MASK)
}

/// The slab index held in a packed pointer.
pub open spec fn packed_slab(packed: u64) -> u16 {
    (packed >> 48u64) as u16
}

/// The offset held in a packed pointer.
pub open spec fn packed_offset(packed: u64) -> u64 {
    packed & OFFSET_MASK
}

/// A location in shared memory: a slab index and a byte offset inside the
/// slab, packed into one 64-bit word.
#[derive(Copy, Clone, PartialEq, Eq, Debug)]
pub struct AssetPtr {
    packed_ptr: u64,
}

impl View for AssetPtr {
    type V = u64;

    closed spec fn view(&self) -> u64 {
        self.packed_ptr
    }
}

impl AssetPtr {
    /// Packs `slab_index` and the low 48 bits of `offset`.
    pub fn new(slab_index: u16, offset: u64) -> (p: AssetPtr)
        ensures
            p@ == pack(slab_index, offset),
    {
        let packed_ptr = ((slab_index as u64) << 48) | (offset & OFFSET_MASK);
        AssetPtr { packed_ptr }
    }

    /// Splits the pointer into its slab index and offset.
    pub fn unpack(&self) -> (r: (u16, u64))
        ensures
            r == (packed_slab(self@), packed_offset(self@)),
    {
        let slab_index = (self.packed_ptr >> 48) as u16;
        let offset = self.packed_ptr & OFFSET_MASK;
        (slab_index, offset)
    }
}

impl WireItem for AssetPtr {
    open spec fn spec_wire_size() -> nat {
        8
    }

    closed spec fn spec_to_wire(&self) -> Seq<u8> {
        u64_le(self.packed_ptr)
    }

    closed spec fn spec_from_wire(bytes: Seq<u8>) -> AssetPtr {
        AssetPtr { packed_ptr: le_u64(bytes) }
    }

    fn wire_size() -> (n: usize) {
        8
    }

    fn to_wire(&self, out: &mut [u8], at: usize) {
        crate::bytes::put_u64_le(out, at, self.packed_ptr);
    }

    fn from_wire(src: &[u8], at: usize) -> (v: AssetPtr) {
        AssetPtr { packed_ptr: crate::bytes::get_u64_le(src, at) }
    }

    proof fn lemma_wire_len(&self) {
        lemma_u64_le_roundtrip(self.packed_ptr);
    }

    proof fn lemma_wire_roundtrip(&self) {
        lemma_u64_le_roundtrip(self.packed_ptr);
    }
}

/// Unpacking a freshly packed pointer gives back the slab index and the low
/// 48 bits of the offset.
pub proof fn lemma_unpack_new(slab_index: u16, offset: u64)
    ensures
        packed_slab(pack(slab_index, offset)) == slab_index,
        packed_offset(pack(slab_index, offset)) == offset % 0x1_0000_0000_0000,
{
    assert((((slab_index as u64) << 48u64) | (offset & 0x0000_FFFF_FFFF_FFFFu64)) >> 48u64
        == slab_index as u64) by (bit_vector);
    assert((((slab_index as u64) << 48u64) | (offset & 0x0000_FFFF_FFFF_FFFFu64))
        & 0x0000_FFFF_FFFF_FFFFu64 == offset % 0x1_0000_0000_0000) by (bit_vector);
}

/// Packing the two parts of any packed pointer gives the same pointer back.
pub proof fn lemma_new_unpack(packed: u64)
    ensures
        pack(packed_slab(packed), packed_offset(packed)) == packed,
{
    assert(((((packed >> 48u64) as u16) as u64) << 48u64) | ((packed & 0x0000_FFFF_FFFF_FFFFu64)
        & 0x0000_FFFF_FFFF_FFFFu64) == packed) by (bit_vector);
}

/// The image of an asset pointer is its packed word, little-endian:
/// the offset in the low 48 bits, the slab index in the top 16; reading 8
/// bytes takes the packed word from them.
pub proof fn lemma_asset_ptr_image(p: AssetPtr, b: Seq<u8>)
    requires
        b.len() == 8,
    ensures
        p.spec_to_wire().len() == 8,
        le_u64(p.spec_to_wire()) == p@,
        le_u64(p.spec_to_wire()) & OFFSET_MASK == packed_offset(p@),
        (le_u64(p.spec_to_wire()) >> 48u64) as u16 == packed_slab(p@),
        AssetPtr::spec_from_wire(b)@ == le_u64(b),
{
    lemma_u64_le_roundtrip(p.packed_ptr);
}

} // verus!
