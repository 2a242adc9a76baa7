//! Commands sent to the engine, its responses and published meshes.
use vstd::prelude::*;
use crate::buffer::{
    Buffer, BufferError, WireItem, items_from_wire, lemma_buffer_len, lemma_write_read_roundtrip,
    wire_seq, write_fits,
};
use crate::bytes::{splice, zeros};
use crate::fields::Uuid;
use crate::buffer::{lemma_read_back_at, lemma_wire_seq_len};
use crate::{MAX_HANDLE_LEN, MAX_INLINE_DATA};

pub mod engine_command;
pub mod engine_response;
pub mod mesh_publish;

verus! {

broadcast use lemma_buffer_len;

pub const OP_STANDARDIZE_GROUPS: u16 = 1;

pub const OP_STANDARDIZE_SYNCED_GROUPS: u16 = 2;

pub const OP_SET_SURFACE_TYPES: u16 = 3;

pub const OP_DROP_GROUPS: u16 = 4;

pub const OP_ORGANIZE_OBJECTS: u16 = 5;

pub const OP_GET_SURFACE_TYPES: u16 = 6;

pub const OP_STOP_ENGINE: u16 = 7;

pub const OP_ALLOC_MEM: u16 = 8;

pub const OP_EXTRACT_GEOMETRIC_FEATURES: u16 = 9;

pub const OP_SEND_MESH: u16 = 10;

pub const OP_EXPORT_ASSETS: u16 = 11;

pub const OP_IMPORT_ASSETS: u16 = 12;

pub const OP_EXPORT_ALL: u16 = 13;

pub const OP_DROP_ALL_GROUPS: u16 = 15;

pub const OP_TBO_POINTS_FLUSH: u16 = 17;

pub const OP_EXPORT_ASSET_TBO: u16 = 18;

pub const OP_EXPORT_ALL_ASSET_TBO: u16 = 19;

pub const OP_GROUP_ALL_OBJECTS: u16 = 20;

pub const OP_EMBED_ALL_ASSETS: u16 = 21;

/// A command for the engine: the operation, how many records the payload
/// holds, whether the engine should cache the result, and the payload.
#[derive(Debug, Clone, Copy)]
pub struct EngineCommand {
    pub should_cache: u16,
    pub op_id: u16,
    pub num_headers: u32,
    pub inline_data: Buffer,
}

/// The header of a response: status, slab count, item count and the handle
/// of the root slab.
#[derive(Debug, Clone, Copy)]
pub struct ResponseHeader {
    pub status: u16,
    pub total_slabs: u16,
    pub num_items: u32,
    pub root_slab_handle: [u8; MAX_HANDLE_LEN],
}

/// The engine's answer to a command.
#[derive(Debug, Clone, Copy)]
pub struct EngineResponse {
    pub header: ResponseHeader,
    pub inline_data: Buffer,
}

/// Mesh data published by the engine.
#[derive(Debug, Clone, Copy)]
pub struct MeshPublish {
    pub header: ResponseHeader,
    pub inline_data: Buffer,
}

/// A payload of zero bytes.
pub open spec fn blank() -> Seq<u8> {
    zeros(MAX_INLINE_DATA as nat)
}

/// A header with every field zero.
pub open spec fn blank_header(h: ResponseHeader) -> bool {
    &&& h.status == 0
    &&& h.total_slabs == 0
    &&& h.num_items == 0
    &&& h.root_slab_handle@ == zeros(MAX_HANDLE_LEN as nat)
}

/// A zeroed header.
pub fn zero_header() -> (h: ResponseHeader)
    ensures
        blank_header(h),
{
    let h = ResponseHeader {
        status: 0,
        total_slabs: 0,
        num_items: 0,
        root_slab_handle: [0u8; MAX_HANDLE_LEN],
    };
    assert(h.root_slab_handle@ =~= zeros(MAX_HANDLE_LEN as nat));
    h
}

/// The payload holding a list of records at its start; a list that does not
/// fit leaves the payload blank.
pub open spec fn list_payload<T: WireItem>(items: Seq<T>) -> Seq<u8> {
    if write_fits(0, items.len() as int, T::spec_wire_size() as int) {
        splice(blank(), 0, wire_seq(items))
    } else {
        blank()
    }
}

/// What reading `count` records from the start of `payload` gives: refused
/// with `Overflow` when they would end past the payload.
pub open spec fn read_list<T: WireItem>(payload: Seq<u8>, count: nat) -> Result<
    Seq<T>,
    BufferError,
> {
    if write_fits(0, count as int, T::spec_wire_size() as int) {
        Ok(items_from_wire::<T>(payload, count))
    } else {
        Err(BufferError::Overflow)
    }
}

/// The values of a successful read.
pub open spec fn vec_result<T>(r: Result<Vec<T>, BufferError>) -> Result<Seq<T>, BufferError> {
    match r {
        Ok(v) => Ok(v@),
        Err(e) => Err(e),
    }
}

/// Reading back a list from the payload that holds it gives the list, when
/// it fits; the count a command records is the list length cut to 32 bits.
pub proof fn lemma_list_roundtrip<T: WireItem>(items: Seq<T>)
    requires
        write_fits(0, items.len() as int, T::spec_wire_size() as int),
    ensures
        read_list::<T>(list_payload(items), (items.len() as u32) as nat) == Ok::<
            Seq<T>,
            BufferError,
        >(items),
{
    if items.len() > 0 {
        items[0].lemma_wire_len();
        assert(items.len() <= MAX_INLINE_DATA) by (nonlinear_arith)
            requires
                items.len() * T::spec_wire_size() <= MAX_INLINE_DATA,
                T::spec_wire_size() >= 1,
        {
        }
    }
    lemma_write_read_roundtrip(blank(), items);
}

/// An allocation payload: the header image at the start, the identifiers
/// right after it and the second array at `second_at`.
pub open spec fn alloc_payload<T: WireItem>(
    meta_image: Seq<u8>,
    uuids: Seq<Uuid>,
    second_at: int,
    second: Seq<T>,
) -> Seq<u8> {
    splice(
        splice(splice(blank(), 0, meta_image), meta_image.len() as int, wire_seq(uuids)),
        second_at,
        wire_seq(second),
    )
}

/// The identifiers and the second array can be read back from an
/// allocation payload.
pub proof fn lemma_alloc_payload_parts<T: WireItem>(
    meta_image: Seq<u8>,
    uuids: Seq<Uuid>,
    second_at: int,
    second: Seq<T>,
)
    requires
        meta_image.len() + uuids.len() * 32 <= second_at,
        second_at + second.len() * T::spec_wire_size() <= MAX_INLINE_DATA,
    ensures
        ({
            let p = alloc_payload(meta_image, uuids, second_at, second);
            &&& p.len() == MAX_INLINE_DATA
            &&& p.subrange(0, meta_image.len() as int) == meta_image
            &&& items_from_wire::<Uuid>(p.skip(meta_image.len() as int), uuids.len()) == uuids
            &&& items_from_wire::<T>(p.skip(second_at), second.len()) == second
        }),
{
    let p = alloc_payload(meta_image, uuids, second_at, second);
    let m = meta_image.len() as int;
    lemma_wire_seq_len(uuids);
    lemma_wire_seq_len(second);
    assert(p.subrange(0, m) =~= meta_image);
    assert(p.subrange(m, m + uuids.len() * 32) =~= wire_seq(uuids));
    assert(p.subrange(second_at, second_at + second.len() * T::spec_wire_size()) =~= wire_seq(
        second,
    ));
    lemma_read_back_at(p, m, uuids);
    lemma_read_back_at(p, second_at, second);
}

/// `v` rounded up to a multiple of `a`.
pub open spec fn round_up(v: int, a: int) -> int {
    ((v + a - 1) / a) * a
}

/// The rounding done by `Buffer::align_up` with an alignment of 4.
pub proof fn lemma_align_4(offset: usize, r: usize)
    requires
        r & 3 == 0,
        offset <= r < offset + 4,
    ensures
        r == round_up(offset as int, 4),
{
    assert(r & 3 == 0 ==> r % 4 == 0) by (bit_vector);
}

/// The rounding done by `Buffer::align_up` with an alignment of 32.
pub proof fn lemma_align_32(offset: usize, r: usize)
    requires
        r & 31 == 0,
        offset <= r < offset + 32,
    ensures
        r == round_up(offset as int, 32),
{
    assert(r & 31 == 0 ==> r % 32 == 0) by (bit_vector);
}

} // verus!
