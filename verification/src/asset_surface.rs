use vstd::prelude::*;
use crate::buffer::WireItem;
use crate::bytes::{le_u64, u64_le, splice, lemma_u64_le_roundtrip};
use crate::fields::Uuid;

verus! {

/// The surface type assigned to a group.
#[derive(Debug, Clone, Copy, PartialEq, Eq)]
pub struct GroupSurface {
    pub uuid: Uuid,
    pub surface_type: u64,
}

impl GroupSurface {
    /// A group surface with the given identifier and surface type.
    pub fn new(uuid: Uuid, surface_type: u64) -> (s: GroupSurface)
        ensures
            s.uuid == uuid,
            s.surface_type == surface_type,
    {
        GroupSurface { uuid, surface_type }
    }
}

impl WireItem for GroupSurface {
    open spec fn spec_wire_size() -> nat {
        40
    }

    open spec fn spec_to_wire(&self) -> Seq<u8> {
        self.uuid.spec_to_wire() + u64_le(self.surface_type)
    }

    open spec fn spec_from_wire(bytes: Seq<u8>) -> GroupSurface {
        GroupSurface {
            uuid: Uuid::spec_from_wire(bytes.take(32)),
            surface_type: le_u64(bytes.subrange(32, 40)),
        }
    }

    fn wire_size() -> (n: usize) {
        40
    }

    fn to_wire(&self, out: &mut [u8], at: usize) {
        let _ = out.len();
        self.uuid.to_wire(out, at);
        crate::bytes::put_u64_le(out, at + 32, self.surface_type);
        proof {
            lemma_u64_le_roundtrip(self.surface_type);
            assert(final(out)@ =~= splice(old(out)@, at as int, self.spec_to_wire()));
        }
    }

    fn from_wire(src: &[u8], at: usize) -> (v: GroupSurface) {
        let _ = src.len();
        let uuid = Uuid::from_wire(src, at);
        let surface_type = crate::bytes::get_u64_le(src, at + 32);
        proof {
            let b = src@.subrange(at as int, at + 40);
            assert(b.take(32).subrange(0, 32) =~= src@.subrange(at as int, at + 32));
            assert(b.take(32) =~= src@.subrange(at as int, at + 32));
            assert(b.subrange(32, 40) =~= src@.subrange(at + 32, at + 40));
        }
        GroupSurface { uuid, surface_type }
    }

    proof fn lemma_wire_len(&self) {
        lemma_u64_le_roundtrip(self.surface_type);
    }

    proof fn lemma_wire_roundtrip(&self) {
        let b = self.spec_to_wire();
        lemma_u64_le_roundtrip(self.surface_type);
        assert(b.take(32) =~= self.uuid.spec_to_wire());
        assert(b.subrange(32, 40) =~= u64_le(self.surface_type));
        self.uuid.lemma_wire_roundtrip();
    }
}

/// The image of a group surface holds its identifier in the first 32
/// bytes and its surface type as a little-endian 64-bit word in the next
/// 8; reading 40 bytes takes the fields from the same places.
pub proof fn lemma_group_surface_image(g: GroupSurface, b: Seq<u8>)
    requires
        b.len() == 40,
    ensures
        g.spec_to_wire().len() == 40,
        g.spec_to_wire().subrange(0, 32) == g.uuid.bytes@,
        le_u64(g.spec_to_wire().subrange(32, 40)) == g.surface_type,
        GroupSurface::spec_from_wire(b).uuid == Uuid::spec_from_wire(b.subrange(0, 32)),
        GroupSurface::spec_from_wire(b).surface_type == le_u64(b.subrange(32, 40)),
{
    lemma_u64_le_roundtrip(g.surface_type);
    assert(g.spec_to_wire().subrange(0, 32) =~= g.uuid.bytes@);
    assert(g.spec_to_wire().subrange(32, 40) =~= u64_le(g.surface_type));
    assert(b.take(32) =~= b.subrange(0, 32));
}

} // verus!
