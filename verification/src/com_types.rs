//! Records of the compact protocol: asset sections aligned to 8 bytes with
//! 16-byte object identifiers, group surfaces carried by name, a command
//! whose payload is a plain byte array, and a status-only response.
use vstd::prelude::*;
use vstd::string::StringSliceAdditionalSpecFns;
use crate::asset_names::name_field;
use crate::buffer::{
    WireItem, lemma_wire_seq_index, lemma_wire_seq_len, lemma_wire_seq_prefix, put_items,
    wire_seq,
};
use crate::bytes::{lemma_splice_append, put_bytes, splice};
pub use crate::asset_meta::ShmOffset;
pub use crate::asset_names::GroupNames;
pub use crate::command::{
    OP_DROP_GROUPS, OP_GET_SURFACE_TYPES, OP_ORGANIZE_OBJECTS, OP_SET_SURFACE_TYPES,
    OP_STANDARDIZE_GROUPS, OP_STANDARDIZE_SYNCED_GROUPS, OP_STOP_ENGINE,
};
pub use crate::{MAX_HANDLE_LEN, MAX_INLINE_DATA, MAX_NAME_LEN};

verus! {

/// A group's surface type, the group given by its name in a fixed-width
/// field.
#[derive(Debug, Clone, Copy)]
pub struct GroupSurface {
    pub group_name: [u8; MAX_NAME_LEN],
    pub surface_type: u64,
}

/// How many bytes of a name fit in a name field, which keeps its last byte
/// zero.
pub open spec fn name_room(len: nat) -> int {
    if len < MAX_NAME_LEN - 1 {
        len as int
    } else {
        MAX_NAME_LEN - 1
    }
}

impl GroupSurface {
    /// The surface of the group named `group_name`, the name cut to
    /// `MAX_NAME_LEN - 1` bytes.
    pub fn new(group_name: &str, surface_type: u64) -> (s: GroupSurface)
        ensures
            s.group_name@ == name_field(group_name.spec_bytes()),
            s.surface_type == surface_type,
    {
        let mut surf = GroupSurface { group_name: [0; MAX_NAME_LEN], surface_type };
        proof {
            assert(surf.group_name@ =~= crate::bytes::zeros(MAX_NAME_LEN as nat));
        }
        surf.set_group_name(group_name);
        surf
    }

    /// Writes the first bytes of `name` that fit at the start of the name
    /// field.
    fn set_group_name(&mut self, name: &str)
        ensures
            final(self).group_name@ == splice(
                old(self).group_name@,
                0,
                name.spec_bytes().take(name_room(name.spec_bytes().len())),
            ),
            final(self).surface_type == old(self).surface_type,
    {
        let bytes = name.as_bytes();
        let len = if bytes.len() < MAX_NAME_LEN - 1 {
            bytes.len()
        } else {
            MAX_NAME_LEN - 1
        };
        let part = vstd::slice::slice_subrange(bytes, 0, len);
        proof {
            assert(part@ =~= bytes@.take(len as int));
        }
        put_bytes(&mut self.group_name, 0, part);
    }
}

/// The header of an asset in the compact layout: where each data section
/// starts, relative to the header, and the counts that size them.
#[derive(Debug, Clone)]
pub struct AssetMeta {
    pub offset_uuids: u64,
    pub offset_verts: u64,
    pub offset_edges: u64,
    pub offset_vert_bases: u64,
    pub offset_edge_bases: u64,
    pub offset_transforms: u64,
    pub offset_object_names: u64,
    pub offset_object_name_lengths: u64,
    pub offset_group_name: u64,
    pub object_count: u32,
    pub group_name_length: u16,
    pub surface_context: u16,
}

/// Size in bytes of the compact header record.
pub const COMPACT_META_SIZE: u64 = 80;

/// `v` rounded up to a multiple of 8.
pub open spec fn align8(v: int) -> int {
    ((v + 7) / 8) * 8
}

/// Rounds `val` up to the next multiple of 8.
fn align_to_8(val: u64) -> (r: u64)
    requires
        val + 7 <= u64::MAX,
    ensures
        r == align8(val as int),
        val <= r < val + 8,
{
    let x = val + 7;
    let r = x & !7u64;
    assert((x & !7u64) % 8 == 0 && (x & !7u64) <= x && x - (x & !7u64) < 8) by (bit_vector);
    r
}

/// `m` and `total` are the compact layout of an asset with these counts,
/// surface context and group-name length: the header first, then the
/// identifiers (16 bytes each), vertices (12 bytes each), edges (8 bytes
/// each), transforms (64 bytes per object), vertex and edge bases (4 bytes
/// per object and one more), object names (`MAX_NAME_LEN` bytes each),
/// object name lengths (4 bytes each) and the group name, each on the first
/// 8-byte boundary after the previous one ends; `total` is where the last
/// ends, rounded up.
pub open spec fn compact_laid_out(
    m: AssetMeta,
    total: u64,
    verts: u32,
    edges: u32,
    objects: u32,
    surface_context: u16,
    name_len: nat,
) -> bool {
    &&& m.offset_uuids == COMPACT_META_SIZE
    &&& m.offset_verts == align8(m.offset_uuids + objects * 16)
    &&& m.offset_edges == align8(m.offset_verts + verts * 12)
    &&& m.offset_transforms == align8(m.offset_edges + edges * 8)
    &&& m.offset_vert_bases == align8(m.offset_transforms + objects * 64)
    &&& m.offset_edge_bases == align8(m.offset_vert_bases + (objects + 1) * 4)
    &&& m.offset_object_names == align8(m.offset_edge_bases + (objects + 1) * 4)
    &&& m.offset_object_name_lengths == align8(m.offset_object_names + objects * MAX_NAME_LEN)
    &&& m.offset_group_name == align8(m.offset_object_name_lengths + objects * 4)
    &&& total == align8(m.offset_group_name + name_len)
    &&& m.object_count == objects
    &&& m.group_name_length == name_len as u16
    &&& m.surface_context == surface_context
}

impl AssetMeta {
    /// The total size of the segment of an asset with the given counts and
    /// group name, and its header in the compact layout.
    pub fn new(
        total_verts: u32,
        total_edges: u32,
        object_count: u32,
        surface_context: u16,
        group_name: &str,
    ) -> (r: (u64, AssetMeta))
        requires
            object_count < u32::MAX,
            group_name.spec_bytes().len() <= isize::MAX,
        ensures
            compact_laid_out(
                r.1,
                r.0,
                total_verts,
                total_edges,
                object_count,
                surface_context,
                group_name.spec_bytes().len(),
            ),
    {
        let objects = object_count as u64;
        let name_len = group_name.len();
        proof {
            assert(usize::MAX == 0xffff_ffff || usize::MAX == 0xffff_ffff_ffff_ffff);
        }
        let mut cursor = COMPACT_META_SIZE;
        let offset_uuids = cursor;
        cursor = align_to_8(offset_uuids + objects * 16);
        assert(cursor <= 0x1_0000_0000 * 16 + 88);
        let offset_verts = cursor;
        cursor = align_to_8(offset_verts + total_verts as u64 * 12);
        assert(cursor <= 0x1_0000_0000 * 28 + 96);
        let offset_edges = cursor;
        cursor = align_to_8(offset_edges + total_edges as u64 * 8);
        assert(cursor <= 0x1_0000_0000 * 36 + 104);
        let offset_transforms = cursor;
        cursor = align_to_8(offset_transforms + objects * 64);
        assert(cursor <= 0x1_0000_0000 * 100 + 112);
        let offset_vert_bases = cursor;
        cursor = align_to_8(offset_vert_bases + (object_count + 1) as u64 * 4);
        assert(cursor <= 0x1_0000_0000 * 104 + 120);
        let offset_edge_bases = cursor;
        cursor = align_to_8(offset_edge_bases + (object_count + 1) as u64 * 4);
        assert(cursor <= 0x1_0000_0000 * 108 + 128);
        let offset_object_names = cursor;
        cursor = align_to_8(offset_object_names + objects * (MAX_NAME_LEN as u64));
        assert(cursor <= 0x1_0000_0000 * 172 + 136);
        let offset_object_name_lengths = cursor;
        cursor = align_to_8(offset_object_name_lengths + objects * 4);
        assert(cursor <= 0x1_0000_0000 * 176 + 144);
        let offset_group_name = cursor;
        cursor = align_to_8(offset_group_name + name_len as u64);
        let total_size = cursor;
        let meta = AssetMeta {
            offset_uuids,
            offset_verts,
            offset_edges,
            offset_vert_bases,
            offset_edge_bases,
            offset_transforms,
            offset_object_names,
            offset_object_name_lengths,
            offset_group_name,
            object_count,
            group_name_length: name_len as u16,
            surface_context,
        };
        (total_size, meta)
    }
}

/// A command whose payload is a plain byte array.
#[derive(Debug, Clone, Copy)]
pub struct EngineCommand {
    pub should_cache: u16,
    pub op_id: u16,
    pub num_groups: u32,
    pub inline_data: [u8; MAX_INLINE_DATA],
}

/// The first `MAX_INLINE_DATA` bytes at most of the images of `payload`.
pub open spec fn inline_prefix<T: WireItem>(payload: Seq<T>) -> Seq<u8> {
    let whole = wire_seq(payload);
    if whole.len() < MAX_INLINE_DATA {
        whole
    } else {
        whole.take(MAX_INLINE_DATA as int)
    }
}

/// Copies the images of `payload` to the start of `data`, keeping at most
/// `MAX_INLINE_DATA` bytes of them.
fn copy_prefix<T: WireItem>(data: &mut [u8], payload: &[T])
    requires
        old(data)@.len() == MAX_INLINE_DATA,
        payload@.len() * T::spec_wire_size() <= usize::MAX,
    ensures
        final(data)@ == splice(old(data)@, 0, inline_prefix(payload@)),
{
    let w = T::wire_size();
    let n = payload.len();
    let size = n * w;
    proof {
        lemma_wire_seq_len(payload@);
    }
    if size <= MAX_INLINE_DATA {
        proof {
            assert(wire_seq(payload@).take(wire_seq(payload@).len() as int) =~= wire_seq(
                payload@,
            ));
        }
        put_items(data, 0, payload);
    } else {
        let full = MAX_INLINE_DATA / w;
        proof {
            assert(full * w <= MAX_INLINE_DATA) by (nonlinear_arith)
                requires
                    full == MAX_INLINE_DATA / w,
                    w >= 1,
            ;
        }
        let rest = MAX_INLINE_DATA - full * w;
        proof {
            assert(rest < w) by (nonlinear_arith)
                requires
                    full == MAX_INLINE_DATA / w,
                    rest == MAX_INLINE_DATA - full * w,
                    w >= 1,
            ;
            assert(full < n) by (nonlinear_arith)
                requires
                    full * w <= MAX_INLINE_DATA,
                    n * w > MAX_INLINE_DATA,
                    w >= 1,
            ;
        }
        let head = vstd::slice::slice_subrange(payload, 0, full);
        let ghost d0 = data@;
        put_items(data, 0, head);
        let mut tmp = [0u8; 256];
        payload[full].to_wire(&mut tmp, 0);
        let piece = vstd::slice::slice_subrange(tmp.as_slice(), 0, rest);
        proof {
            lemma_wire_seq_len(head@);
            lemma_wire_seq_prefix(payload@, full as int);
            lemma_wire_seq_index(payload@, full as int);
            assert(head@ =~= payload@.take(full as int));
            let whole = wire_seq(payload@);
            let e = payload@[full as int].spec_to_wire();
            payload@[full as int].lemma_wire_len();
            assert(piece@ =~= e.take(rest as int));
            assert(full * w + w <= n * w) by (nonlinear_arith)
                requires
                    full < n,
                    w >= 0,
            ;
            assert(whole.len() == n * w);
            assert(whole.take(MAX_INLINE_DATA as int) =~= whole.take(full * w) + whole.subrange(
                full * w,
                full * w + w,
            ).take(rest as int));
            lemma_splice_append(d0, wire_seq(head@), piece@);
        }
        put_bytes(data, full * w, piece);
    }
}

impl EngineCommand {
    /// Copies the images of `payload` to the start of the payload, keeping
    /// at most `MAX_INLINE_DATA` bytes of them.
    pub fn copy_payload_into_inline<T: WireItem>(&mut self, payload: &[T])
        requires
            payload@.len() * T::spec_wire_size() <= usize::MAX,
        ensures
            final(self).should_cache == old(self).should_cache,
            final(self).op_id == old(self).op_id,
            final(self).num_groups == old(self).num_groups,
            final(self).inline_data@ == splice(old(self).inline_data@, 0, inline_prefix(payload@)),
    {
        copy_prefix(&mut self.inline_data, payload);
    }
}

/// A response carrying a status only: 0 for success.
#[derive(Debug, Clone, Copy)]
pub struct EngineResponse {
    pub status: u32,
}

} // verus!
