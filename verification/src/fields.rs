use vstd::prelude::*;
use crate::buffer::WireItem;

verus! {

/// A 32-byte identifier of an asset or group.
#[derive(Copy, Clone, PartialEq, Eq, Hash, Debug)]
pub struct Uuid {
    pub bytes: [u8; 32],
}

impl Uuid {
    /// Number of bytes in a `Uuid`.
    pub const SIZE: usize = 32;

    /// Builds a `Uuid` from the first `Uuid::SIZE` bytes of `src`; when `src`
    /// is shorter, the remaining bytes are zero.
    pub fn from_prefix(src: &[u8]) -> (id: Uuid)
        ensures
            forall|i: int|
                0 <= i < 32 ==> #[trigger] id.bytes@[i] == (if i < src@.len() {
                    src@[i]
                } else {
                    0u8
                }),
    {
        let mut bytes = [0u8; 32];
        let len = if src.len() < 32 { src.len() } else { 32 };
        let mut i: usize = 0;
        while i < len
            invariant
                len <= 32,
                len <= src@.len(),
                len == src@.len() || len == 32,
                i <= len,
                forall|j: int| 0 <= j < i ==> #[trigger] bytes@[j] == src@[j],
                forall|j: int| i <= j < 32 ==> #[trigger] bytes@[j] == 0u8,
            decreases len - i,
        {
            bytes[i] = src[i];
            i = i + 1;
        }
        Uuid { bytes }
    }
}

impl WireItem for Uuid {
    open spec fn spec_wire_size() -> nat {
        32
    }

    open spec fn spec_to_wire(&self) -> Seq<u8> {
        self.bytes@
    }

    open spec fn spec_from_wire(bytes: Seq<u8>) -> Uuid {
        Uuid { bytes: array32_of(bytes) }
    }

    fn wire_size() -> (n: usize) {
        32
    }

    fn to_wire(&self, out: &mut [u8], at: usize) {
        crate::bytes::put_bytes(out, at, self.bytes.as_slice());
    }

    fn from_wire(src: &[u8], at: usize) -> (v: Uuid) {
        let mut bytes = [0u8; 32];
        let mut i: usize = 0;
        while i < 32
            invariant
                at + 32 <= src@.len(),
                i <= 32,
                forall|j: int| 0 <= j < i ==> #[trigger] bytes@[j] == src@[at + j],
            decreases 32 - i,
        {
            bytes[i] = src[at + i];
            i = i + 1;
        }
        proof {
            assert(bytes@ =~= src@.subrange(at as int, at + 32).take(32));
            lemma_array32_of(bytes, src@.subrange(at as int, at + 32));
        }
        Uuid { bytes }
    }

    proof fn lemma_wire_len(&self) {
    }

    proof fn lemma_wire_roundtrip(&self) {
        assert(self.bytes@ =~= self.bytes@.take(32));
        lemma_array32_of(self.bytes, self.bytes@);
    }
}

/// The 32-byte array holding the first 32 bytes of `s`.
pub open spec fn array32_of(s: Seq<u8>) -> [u8; 32] {
    choose|a: [u8; 32]| a@ == s.take(32)
}

/// An array is the 32-byte array of any sequence that starts with its bytes.
pub proof fn lemma_array32_of(a: [u8; 32], s: Seq<u8>)
    requires
        a@ == s.take(32),
    ensures
        array32_of(s) == a,
{
    let b = array32_of(s);
    assert(b@ == s.take(32));
    assert(b@ =~= a@);
    assert(b =~= a);
}

} // verus!
