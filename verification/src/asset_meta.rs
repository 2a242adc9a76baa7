//! The layout of an asset in shared memory: a header followed by data
//! sections, each starting on a 32-byte boundary.
use vstd::prelude::*;
use vstd::string::StringSliceAdditionalSpecFns;
use crate::allocation::{align32, align_to_32};
use crate::bytes::splice;
use crate::text::utf8_between;
use vstd::utf8::*;
use crate::fields::Uuid;
use crate::MAX_HANDLE_LEN;

verus! {

/// Where an asset's metadata lies in a shared-memory segment.
pub struct ShmOffset {
    pub meta_data_offset: u64,
    pub mesh_shm_handle: [u8; MAX_HANDLE_LEN],
}

/// An axis-aligned bounding box. Each coordinate is held as the bit
/// pattern of an IEEE-754 single-precision number.
#[derive(Debug, Clone, Copy, PartialEq, Eq)]
pub struct Bounds3f {
    pub min_x: u32,
    pub min_z: u32,
    pub max_x: u32,
    pub max_y: u32,
    pub min_y: u32,
    pub max_z: u32,
}

/// The header of an asset in shared memory: where each data section starts,
/// relative to the header, and the counts that size the sections.
#[derive(Debug, Clone)]
pub struct AssetMeta {
    pub offset_uuids: usize,
    pub offset_verts: usize,
    pub offset_edges: usize,
    /// One entry per face corner, holding a vertex index.
    pub offset_loops: usize,
    /// One entry per face, holding its first index into the loops, with the
    /// total at the end.
    pub offset_loop_bases: usize,
    /// One entry per object, holding its first index into the loop bases,
    /// with the total at the end.
    pub offset_object_loop_counts: usize,
    pub offset_vert_bases: usize,
    pub offset_edge_bases: usize,
    pub offset_transforms: usize,
    pub offset_object_names: usize,
    pub offset_group_name: usize,
    pub offset_embeddings: usize,
    pub offset_canonical_transform: usize,
    pub offset_asset_embedding: usize,
    pub vert_count: u32,
    pub edge_count: u32,
    pub loop_count: u32,
    pub total_loop_lengths: u32,
    pub object_count: u32,
    pub group_name_length: u16,
    pub surface_context: u16,
    pub uuid: Uuid,
    pub bounds: Bounds3f,
}

/// Size in bytes of the header record at the start of an asset segment.
pub const ASSET_META_SIZE: usize = 192;

/// Bytes of the object identifiers.
pub open spec fn uuids_size(object_count: u32) -> int {
    object_count * 32
}

/// Bytes of the vertices: three 32-bit floats each.
pub open spec fn verts_size(vert_count: u32) -> int {
    vert_count * 12
}

/// Bytes of the edges: two 32-bit indices each.
pub open spec fn edges_size(edge_count: u32) -> int {
    edge_count * 8
}

/// Bytes of a table of 32-bit entries with one entry per item and the total
/// at the end.
pub open spec fn counts_size(count: u32) -> int {
    (count + 1) * 4
}

/// Bytes of the loops: one 32-bit index each.
pub open spec fn loops_size(total_loop_lengths: u32) -> int {
    total_loop_lengths * 4
}

/// Bytes of the object transforms: sixteen 32-bit floats each.
pub open spec fn transforms_size(object_count: u32) -> int {
    object_count * 64
}

/// Bytes of the object names: `MAX_NAME_LEN` each.
pub open spec fn object_names_size(object_count: u32) -> int {
    object_count * 64
}

/// Bytes of the object embeddings: 256 32-bit floats each.
pub open spec fn embeddings_size(object_count: u32) -> int {
    object_count * 1024
}

/// Bytes of the canonical transform: sixteen 32-bit floats.
pub const CANONICAL_TRANSFORM_SIZE: usize = 64;

/// Bytes of the asset embedding: 256 32-bit floats.
pub const ASSET_EMBEDDING_SIZE: usize = 1024;

/// The sizes of the sections of an asset, in layout order: identifiers,
/// vertices, edges, loop bases, loops, object loop counts, transforms,
/// vertex bases, edge bases, object names, group name, embeddings,
/// canonical transform, asset embedding.
pub open spec fn layout_sizes(
    verts: u32,
    edges: u32,
    loops: u32,
    loop_lengths: u32,
    objects: u32,
    name_len: nat,
) -> Seq<int> {
    seq![
        uuids_size(objects),
        verts_size(verts),
        edges_size(edges),
        counts_size(loops),
        loops_size(loop_lengths),
        counts_size(objects),
        transforms_size(objects),
        counts_size(objects),
        counts_size(objects),
        object_names_size(objects),
        name_len as int,
        embeddings_size(objects),
        CANONICAL_TRANSFORM_SIZE as int,
        ASSET_EMBEDDING_SIZE as int,
    ]
}

/// Where the section after the first `k` sections starts: the header comes
/// first, and each section starts on the first 32-byte boundary after the
/// previous one ends; `cursor_after(sizes, sizes.len())` is the total size.
pub open spec fn cursor_after(sizes: Seq<int>, k: nat) -> int
    decreases k,
{
    if k == 0 {
        ASSET_META_SIZE as int
    } else {
        align32(cursor_after(sizes, (k - 1) as nat) + sizes[k - 1])
    }
}

/// Every section starts on a 32-byte boundary, ends before the next one
/// starts, and is followed by fewer than 32 bytes of padding.
pub proof fn lemma_layout_sections(sizes: Seq<int>, k: nat)
    requires
        k < sizes.len(),
        forall|i: int| 0 <= i < sizes.len() ==> sizes[i] >= 0,
    ensures
        cursor_after(sizes, k) % 32 == 0,
        cursor_after(sizes, k) >= ASSET_META_SIZE,
        cursor_after(sizes, k) + sizes[k as int] <= cursor_after(sizes, k + 1),
        cursor_after(sizes, k + 1) < cursor_after(sizes, k) + sizes[k as int] + 32,
        cursor_after(sizes, k + 1) % 32 == 0,
    decreases k,
{
    if k > 0 {
        lemma_layout_sections(sizes, (k - 1) as nat);
    }
}

/// Sections never move backwards: a later cursor is at least an earlier
/// one.
pub proof fn lemma_layout_monotone(sizes: Seq<int>, j: nat, k: nat)
    requires
        j <= k <= sizes.len(),
        forall|i: int| 0 <= i < sizes.len() ==> sizes[i] >= 0,
    ensures
        cursor_after(sizes, j) <= cursor_after(sizes, k),
    decreases k - j,
{
    if j < k {
        lemma_layout_sections(sizes, j);
        lemma_layout_monotone(sizes, j + 1, k);
    }
}

pub(crate) fn uuids_byte_size(object_count: u32) -> (r: usize)
    requires
        uuids_size(object_count) <= usize::MAX,
    ensures
        r == uuids_size(object_count),
{
    object_count as usize * 32
}

pub(crate) fn verts_byte_size(total_verts: u32) -> (r: usize)
    requires
        verts_size(total_verts) <= usize::MAX,
    ensures
        r == verts_size(total_verts),
{
    total_verts as usize * 12
}

pub(crate) fn edges_byte_size(total_edges: u32) -> (r: usize)
    requires
        edges_size(total_edges) <= usize::MAX,
    ensures
        r == edges_size(total_edges),
{
    total_edges as usize * 8
}

pub(crate) fn object_loop_counts_byte_size(object_count: u32) -> (r: usize)
    requires
        object_count < u32::MAX,
        counts_size(object_count) <= usize::MAX,
    ensures
        r == counts_size(object_count),
{
    (object_count + 1) as usize * 4
}

pub(crate) fn loop_bases_byte_size(total_loops: u32) -> (r: usize)
    requires
        total_loops < u32::MAX,
        counts_size(total_loops) <= usize::MAX,
    ensures
        r == counts_size(total_loops),
{
    (total_loops + 1) as usize * 4
}

pub(crate) fn loops_byte_size(total_loop_lengths: u32) -> (r: usize)
    requires
        loops_size(total_loop_lengths) <= usize::MAX,
    ensures
        r == loops_size(total_loop_lengths),
{
    total_loop_lengths as usize * 4
}

pub(crate) fn transforms_byte_size(object_count: u32) -> (r: usize)
    requires
        transforms_size(object_count) <= usize::MAX,
    ensures
        r == transforms_size(object_count),
{
    object_count as usize * 64
}

pub(crate) fn vert_counts_byte_size(object_count: u32) -> (r: usize)
    requires
        object_count < u32::MAX,
        counts_size(object_count) <= usize::MAX,
    ensures
        r == counts_size(object_count),
{
    (object_count + 1) as usize * 4
}

pub(crate) fn edge_counts_byte_size(object_count: u32) -> (r: usize)
    requires
        object_count < u32::MAX,
        counts_size(object_count) <= usize::MAX,
    ensures
        r == counts_size(object_count),
{
    (object_count + 1) as usize * 4
}

pub(crate) fn object_names_byte_size(object_count: u32) -> (r: usize)
    requires
        object_names_size(object_count) <= usize::MAX,
    ensures
        r == object_names_size(object_count),
{
    object_count as usize * 64
}

pub(crate) fn embeddings_byte_size(object_count: u32) -> (r: usize)
    requires
        embeddings_size(object_count) <= usize::MAX,
    ensures
        r == embeddings_size(object_count),
{
    object_count as usize * 1024
}

/// Whether the layout of an asset with these counts can be computed.
pub open spec fn layout_fits(
    verts: u32,
    edges: u32,
    loops: u32,
    loop_lengths: u32,
    objects: u32,
    name_len: nat,
) -> bool {
    &&& loops < u32::MAX
    &&& objects < u32::MAX
    &&& cursor_after(layout_sizes(verts, edges, loops, loop_lengths, objects, name_len), 14)
        <= usize::MAX
}

/// `m` is the header, and `total` the segment size, of an asset with the
/// given counts, surface context, group-name length and identifier: each
/// section at its place in the layout, the counts recorded, the bounds zero.
pub open spec fn laid_out(
    m: AssetMeta,
    total: usize,
    verts: u32,
    edges: u32,
    loops: u32,
    loop_lengths: u32,
    objects: u32,
    surface_context: u16,
    name_len: nat,
    uuid: Uuid,
) -> bool {
    let s = layout_sizes(verts, edges, loops, loop_lengths, objects, name_len);
    &&& m.offset_uuids == cursor_after(s, 0)
    &&& m.offset_verts == cursor_after(s, 1)
    &&& m.offset_edges == cursor_after(s, 2)
    &&& m.offset_loop_bases == cursor_after(s, 3)
    &&& m.offset_loops == cursor_after(s, 4)
    &&& m.offset_object_loop_counts == cursor_after(s, 5)
    &&& m.offset_transforms == cursor_after(s, 6)
    &&& m.offset_vert_bases == cursor_after(s, 7)
    &&& m.offset_edge_bases == cursor_after(s, 8)
    &&& m.offset_object_names == cursor_after(s, 9)
    &&& m.offset_group_name == cursor_after(s, 10)
    &&& m.offset_embeddings == cursor_after(s, 11)
    &&& m.offset_canonical_transform == cursor_after(s, 12)
    &&& m.offset_asset_embedding == cursor_after(s, 13)
    &&& total == cursor_after(s, 14)
    &&& m.vert_count == verts
    &&& m.edge_count == edges
    &&& m.loop_count == loops
    &&& m.total_loop_lengths == loop_lengths
    &&& m.object_count == objects
    &&& m.group_name_length == name_len as u16
    &&& m.surface_context == surface_context
    &&& m.uuid == uuid
    &&& m.bounds == Bounds3f { min_x: 0, min_z: 0, max_x: 0, max_y: 0, min_y: 0, max_z: 0 }
}

impl AssetMeta {
    /// The header of an asset with the given counts, name and identifier,
    /// and the total size of its segment. Each section starts on the first
    /// 32-byte boundary after the previous one ends, the header first.
    pub fn new(
        total_verts: u32,
        total_edges: u32,
        total_loops: u32,
        total_loop_lengths: u32,
        object_count: u32,
        surface_context: u16,
        group_name: &str,
        uuid: Uuid,
    ) -> (r: Result<(AssetMeta, usize), String>)
        requires
            layout_fits(
                total_verts,
                total_edges,
                total_loops,
                total_loop_lengths,
                object_count,
                group_name.spec_bytes().len(),
            ),
        ensures
            r matches Ok((m, total)) && laid_out(
                m,
                total,
                total_verts,
                total_edges,
                total_loops,
                total_loop_lengths,
                object_count,
                surface_context,
                group_name.spec_bytes().len(),
                uuid,
            ),
    {
        let ghost s = layout_sizes(
            total_verts,
            total_edges,
            total_loops,
            total_loop_lengths,
            object_count,
            group_name.spec_bytes().len(),
        );
        proof {
            lemma_layout_sizes(
                total_verts,
                total_edges,
                total_loops,
                total_loop_lengths,
                object_count,
                group_name.spec_bytes().len(),
            );
            lemma_layout_fits_steps(s);
        }
        let name_len = group_name.len();
        let mut cursor = ASSET_META_SIZE;
        let offset_uuids = cursor;
        proof {
            assert(cursor_after(s, 0) + s[0] + 31 <= usize::MAX);
        }
        let size = uuids_byte_size(object_count);
        cursor = advance(cursor, size, Ghost(s), Ghost(0));
        let offset_verts = cursor;
        proof {
            assert(cursor_after(s, 1) + s[1] + 31 <= usize::MAX);
        }
        let size = verts_byte_size(total_verts);
        cursor = advance(cursor, size, Ghost(s), Ghost(1));
        let offset_edges = cursor;
        proof {
            assert(cursor_after(s, 2) + s[2] + 31 <= usize::MAX);
        }
        let size = edges_byte_size(total_edges);
        cursor = advance(cursor, size, Ghost(s), Ghost(2));
        let offset_loop_bases = cursor;
        proof {
            assert(cursor_after(s, 3) + s[3] + 31 <= usize::MAX);
        }
        let size = loop_bases_byte_size(total_loops);
        cursor = advance(cursor, size, Ghost(s), Ghost(3));
        let offset_loops = cursor;
        proof {
            assert(cursor_after(s, 4) + s[4] + 31 <= usize::MAX);
        }
        let size = loops_byte_size(total_loop_lengths);
        cursor = advance(cursor, size, Ghost(s), Ghost(4));
        let offset_object_loop_counts = cursor;
        proof {
            assert(cursor_after(s, 5) + s[5] + 31 <= usize::MAX);
        }
        let size = object_loop_counts_byte_size(object_count);
        cursor = advance(cursor, size, Ghost(s), Ghost(5));
        let offset_transforms = cursor;
        proof {
            assert(cursor_after(s, 6) + s[6] + 31 <= usize::MAX);
        }
        let size = transforms_byte_size(object_count);
        cursor = advance(cursor, size, Ghost(s), Ghost(6));
        let offset_vert_bases = cursor;
        proof {
            assert(cursor_after(s, 7) + s[7] + 31 <= usize::MAX);
        }
        let size = vert_counts_byte_size(object_count);
        cursor = advance(cursor, size, Ghost(s), Ghost(7));
        let offset_edge_bases = cursor;
        proof {
            assert(cursor_after(s, 8) + s[8] + 31 <= usize::MAX);
        }
        let size = edge_counts_byte_size(object_count);
        cursor = advance(cursor, size, Ghost(s), Ghost(8));
        let offset_object_names = cursor;
        proof {
            assert(cursor_after(s, 9) + s[9] + 31 <= usize::MAX);
        }
        let size = object_names_byte_size(object_count);
        cursor = advance(cursor, size, Ghost(s), Ghost(9));
        let offset_group_name = cursor;
        let size = name_len;
        cursor = advance(cursor, size, Ghost(s), Ghost(10));
        let offset_embeddings = cursor;
        proof {
            assert(cursor_after(s, 11) + s[11] + 31 <= usize::MAX);
        }
        let size = embeddings_byte_size(object_count);
        cursor = advance(cursor, size, Ghost(s), Ghost(11));
        let offset_canonical_transform = cursor;
        let size = CANONICAL_TRANSFORM_SIZE;
        cursor = advance(cursor, size, Ghost(s), Ghost(12));
        let offset_asset_embedding = cursor;
        let size = ASSET_EMBEDDING_SIZE;
        cursor = advance(cursor, size, Ghost(s), Ghost(13));
        let total_size = cursor;
        let meta = AssetMeta {
            offset_uuids,
            offset_verts,
            offset_edges,
            offset_loops,
            offset_loop_bases,
            offset_object_loop_counts,
            offset_vert_bases,
            offset_edge_bases,
            offset_transforms,
            offset_object_names,
            offset_group_name,
            offset_embeddings,
            offset_canonical_transform,
            offset_asset_embedding,
            vert_count: total_verts,
            edge_count: total_edges,
            loop_count: total_loops,
            total_loop_lengths,
            object_count,
            group_name_length: name_len as u16,
            surface_context,
            uuid,
            bounds: Bounds3f { min_x: 0, min_z: 0, max_x: 0, max_y: 0, min_y: 0, max_z: 0 },
        };
        Ok((meta, total_size))
    }
}

/// The sizes of the sections, one by one.
pub proof fn lemma_layout_sizes(
    verts: u32,
    edges: u32,
    loops: u32,
    loop_lengths: u32,
    objects: u32,
    name_len: nat,
)
    ensures
        ({
            let s = layout_sizes(verts, edges, loops, loop_lengths, objects, name_len);
            &&& s.len() == 14
            &&& s[0] == uuids_size(objects)
            &&& s[1] == verts_size(verts)
            &&& s[2] == edges_size(edges)
            &&& s[3] == counts_size(loops)
            &&& s[4] == loops_size(loop_lengths)
            &&& s[5] == counts_size(objects)
            &&& s[6] == transforms_size(objects)
            &&& s[7] == counts_size(objects)
            &&& s[8] == counts_size(objects)
            &&& s[9] == object_names_size(objects)
            &&& s[10] == name_len
            &&& s[11] == embeddings_size(objects)
            &&& s[12] == CANONICAL_TRANSFORM_SIZE
            &&& s[13] == ASSET_EMBEDDING_SIZE
            &&& forall|i: int| 0 <= i < s.len() ==> s[i] >= 0
        }),
{
    let s = layout_sizes(verts, edges, loops, loop_lengths, objects, name_len);
    assert forall|i: int| 0 <= i < s.len() implies s[i] >= 0 by {}
}

/// One step of the layout: the cursor after section `k`.
fn advance(cursor: usize, size: usize, Ghost(sizes): Ghost<Seq<int>>, Ghost(k): Ghost<nat>) -> (r:
    usize)
    requires
        sizes.len() == 14,
        k < 14,
        forall|i: int| 0 <= i < sizes.len() ==> sizes[i] >= 0,
        cursor == cursor_after(sizes, k),
        size == sizes[k as int],
        forall|j: nat| j < 14 ==> #[trigger] cursor_after(sizes, j) + sizes[j as int] + 31
            <= usize::MAX,
    ensures
        r == cursor_after(sizes, k + 1),
{
    assert(cursor_after(sizes, k) + sizes[k as int] + 31 <= usize::MAX);
    align_to_32(cursor + size)
}

/// A range of bytes of an asset segment, relative to its header.
#[derive(Debug, Clone, Copy, PartialEq, Eq)]
pub struct ByteRange {
    pub start: usize,
    pub len: usize,
}

/// The data sections of an asset: object identifiers, vertices, edges,
/// loops, loop bases, object loop counts, transforms, vertex bases, edge
/// bases, object names, embeddings, canonical transform, asset embedding.
pub type AssetDataSlices = (
    ByteRange,
    ByteRange,
    ByteRange,
    ByteRange,
    ByteRange,
    ByteRange,
    ByteRange,
    ByteRange,
    ByteRange,
    ByteRange,
    ByteRange,
    ByteRange,
    ByteRange,
);

/// Whether the section sizes of a header can be computed in `usize`.
pub open spec fn sizes_fit(m: AssetMeta) -> bool {
    &&& m.loop_count < u32::MAX
    &&& m.object_count < u32::MAX
    &&& embeddings_size(m.object_count) <= usize::MAX
    &&& verts_size(m.vert_count) <= usize::MAX
    &&& edges_size(m.edge_count) <= usize::MAX
    &&& counts_size(m.loop_count) <= usize::MAX
    &&& loops_size(m.total_loop_lengths) <= usize::MAX
}

/// The range of a section.
pub open spec fn range(start: usize, len: int) -> ByteRange {
    ByteRange { start, len: len as usize }
}

impl AssetMeta {
    /// Bytes of the vertices.
    pub fn verts_byte_size(&self) -> (r: usize)
        requires
            verts_size(self.vert_count) <= usize::MAX,
        ensures
            r == verts_size(self.vert_count),
    {
        verts_byte_size(self.vert_count)
    }

    /// Bytes of the edges.
    pub fn edges_byte_size(&self) -> (r: usize)
        requires
            edges_size(self.edge_count) <= usize::MAX,
        ensures
            r == edges_size(self.edge_count),
    {
        edges_byte_size(self.edge_count)
    }

    /// Bytes of the object transforms.
    pub fn transforms_byte_size(&self) -> (r: usize)
        requires
            transforms_size(self.object_count) <= usize::MAX,
        ensures
            r == transforms_size(self.object_count),
    {
        transforms_byte_size(self.object_count)
    }

    /// Bytes of the vertex bases.
    pub fn vert_counts_byte_size(&self) -> (r: usize)
        requires
            self.object_count < u32::MAX,
            counts_size(self.object_count) <= usize::MAX,
        ensures
            r == counts_size(self.object_count),
    {
        vert_counts_byte_size(self.object_count)
    }

    /// Bytes of the edge bases.
    pub fn edge_counts_byte_size(&self) -> (r: usize)
        requires
            self.object_count < u32::MAX,
            counts_size(self.object_count) <= usize::MAX,
        ensures
            r == counts_size(self.object_count),
    {
        edge_counts_byte_size(self.object_count)
    }

    /// Bytes of the object names.
    pub fn object_names_byte_size(&self) -> (r: usize)
        requires
            object_names_size(self.object_count) <= usize::MAX,
        ensures
            r == object_names_size(self.object_count),
    {
        object_names_byte_size(self.object_count)
    }

    /// Bytes of the object identifiers.
    pub fn uuids_byte_size(&self) -> (r: usize)
        requires
            uuids_size(self.object_count) <= usize::MAX,
        ensures
            r == uuids_size(self.object_count),
    {
        uuids_byte_size(self.object_count)
    }

    /// Where each data section lies, relative to the header: object
    /// identifiers, vertices, edges, loops, loop bases, object loop counts,
    /// transforms, vertex bases, edge bases, object names, embeddings,
    /// canonical transform, asset embedding.
    pub fn get_slices(&self) -> (r: AssetDataSlices)
        requires
            sizes_fit(*self),
        ensures
            r == (
                range(self.offset_uuids, uuids_size(self.object_count)),
                range(self.offset_verts, verts_size(self.vert_count)),
                range(self.offset_edges, edges_size(self.edge_count)),
                range(self.offset_loops, loops_size(self.total_loop_lengths)),
                range(self.offset_loop_bases, counts_size(self.loop_count)),
                range(self.offset_object_loop_counts, counts_size(self.object_count)),
                range(self.offset_transforms, transforms_size(self.object_count)),
                range(self.offset_vert_bases, counts_size(self.object_count)),
                range(self.offset_edge_bases, counts_size(self.object_count)),
                range(self.offset_object_names, object_names_size(self.object_count)),
                range(self.offset_embeddings, embeddings_size(self.object_count)),
                range(self.offset_canonical_transform, CANONICAL_TRANSFORM_SIZE as int),
                range(self.offset_asset_embedding, ASSET_EMBEDDING_SIZE as int),
            ),
    {
        (
            ByteRange { start: self.offset_uuids, len: uuids_byte_size(self.object_count) },
            ByteRange { start: self.offset_verts, len: verts_byte_size(self.vert_count) },
            ByteRange { start: self.offset_edges, len: edges_byte_size(self.edge_count) },
            ByteRange { start: self.offset_loops, len: loops_byte_size(self.total_loop_lengths) },
            ByteRange { start: self.offset_loop_bases, len: loop_bases_byte_size(self.loop_count) },
            ByteRange {
                start: self.offset_object_loop_counts,
                len: object_loop_counts_byte_size(self.object_count),
            },
            ByteRange {
                start: self.offset_transforms,
                len: transforms_byte_size(self.object_count),
            },
            ByteRange {
                start: self.offset_vert_bases,
                len: vert_counts_byte_size(self.object_count),
            },
            ByteRange {
                start: self.offset_edge_bases,
                len: edge_counts_byte_size(self.object_count),
            },
            ByteRange {
                start: self.offset_object_names,
                len: object_names_byte_size(self.object_count),
            },
            ByteRange {
                start: self.offset_embeddings,
                len: embeddings_byte_size(self.object_count),
            },
            ByteRange { start: self.offset_canonical_transform, len: CANONICAL_TRANSFORM_SIZE },
            ByteRange { start: self.offset_asset_embedding, len: ASSET_EMBEDDING_SIZE },
        )
    }
}

/// The ranges that `get_slices` returns, in the same order.
pub open spec fn slice_ranges(m: AssetMeta) -> Seq<ByteRange> {
    seq![
        range(m.offset_uuids, uuids_size(m.object_count)),
        range(m.offset_verts, verts_size(m.vert_count)),
        range(m.offset_edges, edges_size(m.edge_count)),
        range(m.offset_loops, loops_size(m.total_loop_lengths)),
        range(m.offset_loop_bases, counts_size(m.loop_count)),
        range(m.offset_object_loop_counts, counts_size(m.object_count)),
        range(m.offset_transforms, transforms_size(m.object_count)),
        range(m.offset_vert_bases, counts_size(m.object_count)),
        range(m.offset_edge_bases, counts_size(m.object_count)),
        range(m.offset_object_names, object_names_size(m.object_count)),
        range(m.offset_embeddings, embeddings_size(m.object_count)),
        range(m.offset_canonical_transform, CANONICAL_TRANSFORM_SIZE as int),
        range(m.offset_asset_embedding, ASSET_EMBEDDING_SIZE as int),
    ]
}

/// The place in layout order of the `i`-th range of `slice_ranges`.
pub open spec fn layout_index(i: int) -> int {
    if i == 3 {
        4
    } else if i == 4 {
        3
    } else if i <= 9 {
        i
    } else {
        i + 1
    }
}

/// The `i`-th range of a laid-out asset is its section at place
/// `layout_index(i)` of the layout.
proof fn lemma_slice_place(
    m: AssetMeta,
    total: usize,
    verts: u32,
    edges: u32,
    loops: u32,
    loop_lengths: u32,
    objects: u32,
    surface_context: u16,
    name_len: nat,
    uuid: Uuid,
    i: int,
)
    requires
        0 <= i < 13,
        layout_fits(verts, edges, loops, loop_lengths, objects, name_len),
        laid_out(m, total, verts, edges, loops, loop_lengths, objects, surface_context, name_len, uuid),
    ensures
        ({
            let sz = layout_sizes(verts, edges, loops, loop_lengths, objects, name_len);
            &&& slice_ranges(m)[i].start == cursor_after(sz, layout_index(i) as nat)
            &&& slice_ranges(m)[i].len == sz[layout_index(i)]
            &&& 0 <= layout_index(i) < 14
            &&& layout_index(i) != 10
        }),
{
    let sz = layout_sizes(verts, edges, loops, loop_lengths, objects, name_len);
    lemma_layout_sizes(verts, edges, loops, loop_lengths, objects, name_len);
    let l = layout_index(i);
    lemma_layout_sections(sz, l as nat);
    lemma_layout_monotone(sz, (l + 1) as nat, 14);
    let sr = slice_ranges(m);
    if i == 0 {
        assert(sr[i] == range(m.offset_uuids, uuids_size(m.object_count)));
    } else if i == 1 {
        assert(sr[i] == range(m.offset_verts, verts_size(m.vert_count)));
    } else if i == 2 {
        assert(sr[i] == range(m.offset_edges, edges_size(m.edge_count)));
    } else if i == 3 {
        assert(sr[i] == range(m.offset_loops, loops_size(m.total_loop_lengths)));
    } else if i == 4 {
        assert(sr[i] == range(m.offset_loop_bases, counts_size(m.loop_count)));
    } else if i == 5 {
        assert(sr[i] == range(m.offset_object_loop_counts, counts_size(m.object_count)));
    } else if i == 6 {
        assert(sr[i] == range(m.offset_transforms, transforms_size(m.object_count)));
    } else if i == 7 {
        assert(sr[i] == range(m.offset_vert_bases, counts_size(m.object_count)));
    } else if i == 8 {
        assert(sr[i] == range(m.offset_edge_bases, counts_size(m.object_count)));
    } else if i == 9 {
        assert(sr[i] == range(m.offset_object_names, object_names_size(m.object_count)));
    } else if i == 10 {
        assert(sr[i] == range(m.offset_embeddings, embeddings_size(m.object_count)));
    } else if i == 11 {
        assert(sr[i] == range(m.offset_canonical_transform, CANONICAL_TRANSFORM_SIZE as int));
    } else {
        assert(sr[i] == range(m.offset_asset_embedding, ASSET_EMBEDDING_SIZE as int));
    }
}

/// The data sections of a laid-out asset lie after the header and inside
/// its segment, each starts on a 32-byte boundary, and no two overlap.
pub proof fn lemma_slices_disjoint(
    m: AssetMeta,
    total: usize,
    verts: u32,
    edges: u32,
    loops: u32,
    loop_lengths: u32,
    objects: u32,
    surface_context: u16,
    name_len: nat,
    uuid: Uuid,
)
    requires
        layout_fits(verts, edges, loops, loop_lengths, objects, name_len),
        laid_out(m, total, verts, edges, loops, loop_lengths, objects, surface_context, name_len, uuid),
    ensures
        forall|i: int|
            0 <= i < 13 ==> {
                let r = #[trigger] slice_ranges(m)[i];
                &&& r.start % 32 == 0
                &&& ASSET_META_SIZE <= r.start
                &&& r.start + r.len <= total
            },
        forall|i: int, j: int|
            0 <= i < 13 && 0 <= j < 13 && i != j ==> {
                let a = #[trigger] slice_ranges(m)[i];
                let b = #[trigger] slice_ranges(m)[j];
                a.start + a.len <= b.start || b.start + b.len <= a.start
            },
{
    let sz = layout_sizes(verts, edges, loops, loop_lengths, objects, name_len);
    let sr = slice_ranges(m);
    assert forall|i: int| 0 <= i < 13 implies {
        let r = #[trigger] sr[i];
        &&& r.start % 32 == 0
        &&& ASSET_META_SIZE <= r.start
        &&& r.start + r.len <= total
    } by {
        lemma_slice_place(m, total, verts, edges, loops, loop_lengths, objects, surface_context, name_len, uuid, i);
        let l = layout_index(i);
        lemma_layout_sections(sz, l as nat);
        lemma_layout_monotone(sz, (l + 1) as nat, 14);
    }
    assert forall|i: int, j: int| 0 <= i < 13 && 0 <= j < 13 && i != j implies {
        let a = #[trigger] sr[i];
        let b = #[trigger] sr[j];
        a.start + a.len <= b.start || b.start + b.len <= a.start
    } by {
        lemma_slice_place(m, total, verts, edges, loops, loop_lengths, objects, surface_context, name_len, uuid, i);
        lemma_slice_place(m, total, verts, edges, loops, loop_lengths, objects, surface_context, name_len, uuid, j);
        let li = layout_index(i);
        let lj = layout_index(j);
        if li < lj {
            lemma_layout_sections(sz, li as nat);
            lemma_layout_monotone(sz, (li + 1) as nat, lj as nat);
        } else {
            lemma_layout_sections(sz, lj as nat);
            lemma_layout_monotone(sz, (lj + 1) as nat, li as nat);
        }
    }
}

/// `b` without its trailing zero bytes.
pub open spec fn trim_zeros(b: Seq<u8>) -> Seq<u8>
    decreases b.len(),
{
    if b.len() > 0 && b.last() == 0 {
        trim_zeros(b.drop_last())
    } else {
        b
    }
}

/// The text of a stored group name: the bytes read as UTF-8, without
/// trailing NUL characters; empty when the bytes are not valid UTF-8.
pub open spec fn group_name_text(b: Seq<u8>) -> Seq<char> {
    if valid_utf8(b) {
        decode_utf8(trim_zeros(b))
    } else {
        Seq::empty()
    }
}

/// Cutting trailing zero bytes off valid UTF-8 leaves valid UTF-8.
proof fn lemma_trim_valid(b: Seq<u8>, k: int)
    requires
        valid_utf8(b),
        0 <= k <= b.len(),
        forall|j: int| k <= j < b.len() ==> b[j] == 0,
    ensures
        valid_utf8(b.subrange(0, k)),
{
    if k == b.len() {
        assert(b.subrange(0, k) =~= b);
    } else {
        assert(!is_continuation_byte(b[k]));
        is_char_boundary_iff_not_is_continuation_byte(b, k);
        valid_utf8_split(b, k);
    }
}

impl AssetMeta {
    /// The group name stored in `segment`, the bytes of the asset's
    /// shared-memory segment starting at the header: read as UTF-8, with
    /// trailing NUL characters removed, empty when not valid UTF-8.
    pub fn get_group_name(&self, segment: &[u8]) -> (name: String)
        requires
            self.offset_group_name + self.group_name_length <= segment@.len(),
        ensures
            name@ == group_name_text(
                segment@.subrange(
                    self.offset_group_name as int,
                    self.offset_group_name + self.group_name_length,
                ),
            ),
    {
        let _ = segment.len();
        let start = self.offset_group_name;
        let end = start + self.group_name_length as usize;
        let ghost nb = segment@.subrange(start as int, end as int);
        match utf8_between(segment, start, end) {
            None => String::new(),
            Some(_) => {
                let mut k = end;
                while k > start && segment[k - 1] == 0
                    invariant
                        start <= k <= end <= segment@.len(),
                        nb == segment@.subrange(start as int, end as int),
                        trim_zeros(nb) == trim_zeros(segment@.subrange(start as int, k as int)),
                        forall|j: int| k <= j < end ==> segment@[j] == 0,
                    decreases k,
                {
                    proof {
                        assert(segment@.subrange(start as int, k as int).drop_last() =~= segment@.subrange(
                            start as int,
                            k - 1,
                        ));
                    }
                    k = k - 1;
                }
                proof {
                    lemma_trim_valid(nb, k - start);
                    assert(nb.subrange(0, k - start) =~= segment@.subrange(start as int, k as int));
                    assert(trim_zeros(segment@.subrange(start as int, k as int)) == segment@.subrange(
                        start as int,
                        k as int,
                    ));
                }
                match utf8_between(segment, start, k) {
                    Some(text) => {
                        proof {
                            encode_utf8_decode_utf8(text@);
                        }
                        text.to_owned()
                    },
                    None => String::new(),
                }
            },
        }
    }

    /// Writes `group_name` into `segment`, the bytes of the asset's
    /// shared-memory segment starting at the header, at the group name
    /// offset.
    pub fn write_group_name(&self, segment: &mut [u8], group_name: &str)
        requires
            self.offset_group_name + group_name.spec_bytes().len() <= old(segment)@.len(),
        ensures
            final(segment)@ == splice(
                old(segment)@,
                self.offset_group_name as int,
                group_name.spec_bytes(),
            ),
    {
        crate::bytes::put_bytes(segment, self.offset_group_name, group_name.as_bytes());
    }
}

/// Writing a group name into a segment and reading it back gives the name,
/// for every name whose encoding does not end with a NUL byte (a name with
/// trailing NUL characters comes back without them).
pub proof fn lemma_group_name_roundtrip(m: AssetMeta, segment: Seq<u8>, name: Seq<char>)
    requires
        m.group_name_length == encode_utf8(name).len(),
        m.offset_group_name + encode_utf8(name).len() <= segment.len(),
        encode_utf8(name).len() == 0 || encode_utf8(name).last() != 0,
    ensures
        group_name_text(
            splice(segment, m.offset_group_name as int, encode_utf8(name)).subrange(
                m.offset_group_name as int,
                m.offset_group_name + m.group_name_length,
            ),
        ) == name,
{
    let b = encode_utf8(name);
    let off = m.offset_group_name as int;
    assert(splice(segment, off, b).subrange(off, off + m.group_name_length) =~= b);
    encode_utf8_valid_utf8(name);
    encode_utf8_decode_utf8(name);
    assert(trim_zeros(b) == b);
}

/// When the total size fits, every step of computing the layout fits: each
/// cursor plus its section plus 31 stays within `usize`.
proof fn lemma_layout_fits_steps(sizes: Seq<int>)
    requires
        sizes.len() == 14,
        forall|i: int| 0 <= i < sizes.len() ==> sizes[i] >= 0,
        cursor_after(sizes, 14) <= usize::MAX,
    ensures
        forall|k: nat|
            k < 14 ==> #[trigger] cursor_after(sizes, k) + sizes[k as int] + 31 <= usize::MAX,
{
    assert forall|k: nat| k < 14 implies #[trigger] cursor_after(sizes, k) + sizes[k as int] + 31
        <= usize::MAX by {
        lemma_layout_sections(sizes, k);
        lemma_layout_monotone(sizes, k + 1, 14);
        let c = cursor_after(sizes, k + 1);
        assert(c % 32 == 0);
        assert(c <= usize::MAX);
        assert(c <= usize::MAX - 31) by {
            assert(usize::MAX == 0xffff_ffff || usize::MAX == 0xffff_ffff_ffff_ffff);
        }
    }
}

} // verus!
