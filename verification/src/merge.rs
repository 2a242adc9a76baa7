//! Merging several assets into one: a new header laid out for the summed
//! counts, and each section of the new asset the sections of the sources
//! one after the other, with the index tables moved past the entries of the
//! sources before them.
use vstd::prelude::*;
use crate::asset_meta::{
    AssetMeta, ASSET_EMBEDDING_SIZE, CANONICAL_TRANSFORM_SIZE, counts_size, cursor_after,
    edges_byte_size, edges_size, embeddings_byte_size, embeddings_size, group_name_text, laid_out,
    layout_fits, layout_sizes, lemma_layout_monotone, lemma_layout_sizes, lemma_layout_sections, loops_byte_size,
    loops_size, object_names_byte_size, object_names_size, sizes_fit, transforms_byte_size,
    transforms_size, uuids_byte_size, uuids_size, verts_byte_size, verts_size,
};
use crate::fields::Uuid;
use crate::regions::{
    append_bytes, append_shifted, fill, fits_between, lemma_fill_empty, lemma_fill_frame,
    lemma_fill_len, lemma_fill_region, lemma_fits_shorter, lemma_shifted_len, shift_fits,
    shifted_words, word_at,
};
use vstd::utf8::encode_utf8;
use vstd::string::StringSliceAdditionalSpecFns;
use crate::buffer::{lemma_wire_seq_index, lemma_wire_seq_len, put_items, wire_seq};
use crate::bytes::{
    le_u16, le_u32, le_u64, lemma_splice_append, lemma_u16_le_roundtrip, lemma_u32_le_roundtrip,
    lemma_u64_le_roundtrip, put_bytes, put_u16_le, splice, u16_le, u32_le,
};

verus! {

/// The section offsets of a header, in record order.
pub open spec fn meta_offsets(m: AssetMeta) -> Seq<u64> {
    seq![
        m.offset_uuids as u64,
        m.offset_verts as u64,
        m.offset_edges as u64,
        m.offset_loops as u64,
        m.offset_loop_bases as u64,
        m.offset_object_loop_counts as u64,
        m.offset_vert_bases as u64,
        m.offset_edge_bases as u64,
        m.offset_transforms as u64,
        m.offset_object_names as u64,
        m.offset_group_name as u64,
        m.offset_embeddings as u64,
        m.offset_canonical_transform as u64,
        m.offset_asset_embedding as u64,
    ]
}

/// The counts of a header, in record order.
pub open spec fn meta_counts(m: AssetMeta) -> Seq<u32> {
    seq![m.vert_count, m.edge_count, m.loop_count, m.total_loop_lengths, m.object_count]
}

/// The bounds of a header, in record order.
pub open spec fn meta_bounds(m: AssetMeta) -> Seq<u32> {
    seq![
        m.bounds.min_x,
        m.bounds.min_z,
        m.bounds.max_x,
        m.bounds.max_y,
        m.bounds.min_y,
        m.bounds.max_z,
    ]
}

/// The 192-byte record of a header: the fourteen offsets as 64-bit words,
/// the five counts as 32-bit words, the name length and surface context as
/// 16-bit words, the identifier, then the six bounds.
pub open spec fn asset_meta_image(m: AssetMeta) -> Seq<u8> {
    wire_seq(meta_offsets(m)) + wire_seq(meta_counts(m)) + u16_le(m.group_name_length) + u16_le(
        m.surface_context,
    ) + m.uuid.bytes@ + wire_seq(meta_bounds(m))
}

/// The record of a header takes 192 bytes.
proof fn lemma_meta_image_len(m: AssetMeta)
    ensures
        asset_meta_image(m).len() == 192,
{
    lemma_wire_seq_len(meta_offsets(m));
    lemma_wire_seq_len(meta_counts(m));
    lemma_wire_seq_len(meta_bounds(m));
    lemma_u16_le_roundtrip(m.group_name_length);
    lemma_u16_le_roundtrip(m.surface_context);
}

/// Writes the record of `m` at the start of `out`.
fn put_asset_meta(out: &mut [u8], m: &AssetMeta)
    requires
        192 <= old(out)@.len(),
    ensures
        final(out)@ == splice(old(out)@, 0, asset_meta_image(*m)),
        final(out)@.len() == old(out)@.len(),
{
    let offsets: [u64; 14] = [
        m.offset_uuids as u64,
        m.offset_verts as u64,
        m.offset_edges as u64,
        m.offset_loops as u64,
        m.offset_loop_bases as u64,
        m.offset_object_loop_counts as u64,
        m.offset_vert_bases as u64,
        m.offset_edge_bases as u64,
        m.offset_transforms as u64,
        m.offset_object_names as u64,
        m.offset_group_name as u64,
        m.offset_embeddings as u64,
        m.offset_canonical_transform as u64,
        m.offset_asset_embedding as u64,
    ];
    let counts: [u32; 5] = [
        m.vert_count,
        m.edge_count,
        m.loop_count,
        m.total_loop_lengths,
        m.object_count,
    ];
    let bounds: [u32; 6] = [
        m.bounds.min_x,
        m.bounds.min_z,
        m.bounds.max_x,
        m.bounds.max_y,
        m.bounds.min_y,
        m.bounds.max_z,
    ];
    let ghost d0 = out@;
    let ghost o = wire_seq(meta_offsets(*m));
    let ghost c = wire_seq(meta_counts(*m));
    let ghost g = u16_le(m.group_name_length);
    let ghost s = u16_le(m.surface_context);
    let ghost u = m.uuid.bytes@;
    let ghost b = wire_seq(meta_bounds(*m));
    proof {
        assert(offsets@ =~= meta_offsets(*m));
        assert(counts@ =~= meta_counts(*m));
        assert(bounds@ =~= meta_bounds(*m));
        lemma_wire_seq_len(meta_offsets(*m));
        lemma_wire_seq_len(meta_counts(*m));
        lemma_wire_seq_len(meta_bounds(*m));
        lemma_u16_le_roundtrip(m.group_name_length);
        lemma_u16_le_roundtrip(m.surface_context);
        assert(o.len() == 112 && c.len() == 20 && b.len() == 24);
        assert(splice(d0, 0, Seq::empty()) =~= d0);
        assert(Seq::<u8>::empty() + o =~= o);
        lemma_splice_append(d0, Seq::empty(), o);
    }
    put_items(out, 0, offsets.as_slice());
    proof {
        lemma_splice_append(d0, o, c);
    }
    put_items(out, 112, counts.as_slice());
    proof {
        lemma_splice_append(d0, o + c, g);
    }
    put_u16_le(out, 132, m.group_name_length);
    proof {
        lemma_splice_append(d0, o + c + g, s);
    }
    put_u16_le(out, 134, m.surface_context);
    proof {
        lemma_splice_append(d0, o + c + g + s, u);
    }
    put_bytes(out, 136, m.uuid.bytes.as_slice());
    proof {
        lemma_splice_append(d0, o + c + g + s + u, b);
    }
    put_items(out, 168, bounds.as_slice());
}

/// The sources of a merge as values: each header with its segment.
pub open spec fn sources_view(s: Seq<(&AssetMeta, &[u8])>) -> Seq<(AssetMeta, Seq<u8>)> {
    s.map_values(|p: (&AssetMeta, &[u8])| (*p.0, p.1@))
}

/// The sums over `s` of the vertex, edge, loop, loop-length and object
/// counts.
pub open spec fn totals(s: Seq<(AssetMeta, Seq<u8>)>) -> (int, int, int, int, int)
    decreases s.len(),
{
    if s.len() == 0 {
        (0, 0, 0, 0, 0)
    } else {
        let t = totals(s.drop_last());
        let m = s.last().0;
        (
            t.0 + m.vert_count,
            t.1 + m.edge_count,
            t.2 + m.loop_count,
            t.3 + m.total_loop_lengths,
            t.4 + m.object_count,
        )
    }
}

/// Whether every sum of counts over `s` fits in 32 bits.
pub open spec fn totals_fit(s: Seq<(AssetMeta, Seq<u8>)>) -> bool {
    let t = totals(s);
    &&& t.0 <= u32::MAX
    &&& t.1 <= u32::MAX
    &&& t.2 <= u32::MAX
    &&& t.3 <= u32::MAX
    &&& t.4 <= u32::MAX
}

/// The group name bytes stored in the segment of a source.
pub open spec fn stored_name(m: AssetMeta, r: Seq<u8>) -> Seq<u8> {
    r.subrange(m.offset_group_name as int, m.offset_group_name + m.group_name_length)
}

/// The group name of a merge: that of the last source, empty without one.
pub open spec fn merged_name(s: Seq<(AssetMeta, Seq<u8>)>) -> Seq<char> {
    if s.len() == 0 {
        Seq::empty()
    } else {
        group_name_text(stored_name(s.last().0, s.last().1))
    }
}

/// The surface context of a merge: that of the last source, 0 without one.
pub open spec fn merged_surface(s: Seq<(AssetMeta, Seq<u8>)>) -> u16 {
    if s.len() == 0 {
        0
    } else {
        s.last().0.surface_context
    }
}

/// Whether `u` is the identifier of a merge: that of the last source, all
/// zero without one.
pub open spec fn merged_uuid(s: Seq<(AssetMeta, Seq<u8>)>, u: Uuid) -> bool {
    if s.len() == 0 {
        u.bytes@ == Seq::new(32, |i: int| 0u8)
    } else {
        u == s.last().0.uuid
    }
}

/// Whether the header of a merge of `s` can be computed: the sums of the
/// counts fit in 32 bits, the group name of the last source can be read and
/// the merged layout fits in `usize`.
pub open spec fn header_fits(s: Seq<(AssetMeta, Seq<u8>)>) -> bool {
    let t = totals(s);
    &&& totals_fit(s)
    &&& s.len() > 0 ==> s.last().0.offset_group_name + s.last().0.group_name_length
        <= s.last().1.len()
    &&& layout_fits(
        t.0 as u32,
        t.1 as u32,
        t.2 as u32,
        t.3 as u32,
        t.4 as u32,
        encode_utf8(merged_name(s)).len(),
    )
}

/// `len` bytes of `r` from `start`.
pub open spec fn section(r: Seq<u8>, start: int, len: int) -> Seq<u8> {
    r.subrange(start, start + len)
}

/// Whether every section of the header `m` lies inside its segment `r`,
/// which starts at the header.
pub open spec fn sections_within(m: AssetMeta, r: Seq<u8>) -> bool {
    &&& sizes_fit(m)
    &&& m.offset_uuids + uuids_size(m.object_count) <= r.len()
    &&& m.offset_verts + verts_size(m.vert_count) <= r.len()
    &&& m.offset_edges + edges_size(m.edge_count) <= r.len()
    &&& m.offset_loop_bases + counts_size(m.loop_count) <= r.len()
    &&& m.offset_loops + loops_size(m.total_loop_lengths) <= r.len()
    &&& m.offset_object_loop_counts + counts_size(m.object_count) <= r.len()
    &&& m.offset_transforms + transforms_size(m.object_count) <= r.len()
    &&& m.offset_vert_bases + counts_size(m.object_count) <= r.len()
    &&& m.offset_edge_bases + counts_size(m.object_count) <= r.len()
    &&& m.offset_object_names + object_names_size(m.object_count) <= r.len()
    &&& m.offset_embeddings + embeddings_size(m.object_count) <= r.len()
    &&& m.offset_canonical_transform + CANONICAL_TRANSFORM_SIZE <= r.len()
    &&& m.offset_asset_embedding + ASSET_EMBEDDING_SIZE <= r.len()
}

/// The `count` 32-bit entries of the table at `start` of `r`, each
/// increased by `add`.
pub open spec fn moved_words(r: Seq<u8>, start: int, count: nat, add: int) -> Seq<u8> {
    shifted_words(section(r, start, (4 * count) as int), count, add as u32)
}

/// Whether the `count + 1` entries of the table at `start` of `r`, each
/// increased by `add`, stay within 32 bits.
pub open spec fn table_fits(r: Seq<u8>, start: int, count: nat, add: int) -> bool {
    &&& 0 <= add <= u32::MAX
    &&& shift_fits(section(r, start, (4 * count) as int), count, add as u32)
    &&& shift_fits(section(r, start + 4 * count, 4), 1, add as u32)
}

/// The counts of a header: vertices, edges, loops, loop lengths, objects.
pub open spec fn counts_of(m: AssetMeta) -> (int, int, int, int, int) {
    (
        m.vert_count as int,
        m.edge_count as int,
        m.loop_count as int,
        m.total_loop_lengths as int,
        m.object_count as int,
    )
}

/// The bytes that sources with counts `c` add to region `k`, regions in
/// layout order (identifiers, vertices, edges, loop bases, loops, object
/// loop counts, transforms, vertex bases, edge bases, object names, group
/// name, embeddings, canonical transform, asset embedding), the closing
/// entries of the tables left out.
pub open spec fn region_len(c: (int, int, int, int, int), k: int) -> int {
    if k == 0 {
        32 * c.4
    } else if k == 1 {
        12 * c.0
    } else if k == 2 {
        8 * c.1
    } else if k == 3 {
        4 * c.2
    } else if k == 4 {
        4 * c.3
    } else if k == 5 || k == 7 || k == 8 {
        4 * c.4
    } else if k == 6 || k == 9 {
        64 * c.4
    } else if k == 11 {
        1024 * c.4
    } else {
        0
    }
}

/// What the source with header `m` and segment `r` adds to region `k` of a
/// merge, after sources whose counts sum to `t`: its section of that kind,
/// the tables without their closing entry and moved past the sources
/// before it (loop bases by their loop lengths, object loop counts by their
/// loops, vertex and edge bases by their vertices and edges).
pub open spec fn contribution(t: (int, int, int, int, int), m: AssetMeta, r: Seq<u8>, k: int) -> Seq<
    u8,
> {
    if k == 0 {
        section(r, m.offset_uuids as int, uuids_size(m.object_count))
    } else if k == 1 {
        section(r, m.offset_verts as int, verts_size(m.vert_count))
    } else if k == 2 {
        section(r, m.offset_edges as int, edges_size(m.edge_count))
    } else if k == 3 {
        moved_words(r, m.offset_loop_bases as int, m.loop_count as nat, t.3)
    } else if k == 4 {
        section(r, m.offset_loops as int, loops_size(m.total_loop_lengths))
    } else if k == 5 {
        moved_words(r, m.offset_object_loop_counts as int, m.object_count as nat, t.2)
    } else if k == 6 {
        section(r, m.offset_transforms as int, transforms_size(m.object_count))
    } else if k == 7 {
        moved_words(r, m.offset_vert_bases as int, m.object_count as nat, t.0)
    } else if k == 8 {
        moved_words(r, m.offset_edge_bases as int, m.object_count as nat, t.1)
    } else if k == 9 {
        section(r, m.offset_object_names as int, object_names_size(m.object_count))
    } else if k == 11 {
        section(r, m.offset_embeddings as int, embeddings_size(m.object_count))
    } else {
        Seq::empty()
    }
}

/// What the sources `s` add to region `k`, in source order.
pub open spec fn gathered(s: Seq<(AssetMeta, Seq<u8>)>, k: int) -> Seq<u8>
    decreases s.len(),
{
    if s.len() == 0 {
        Seq::empty()
    } else {
        gathered(s.drop_last(), k) + contribution(totals(s.drop_last()), s.last().0, s.last().1, k)
    }
}

/// The closing entry that the source with header `m` and segment `r`,
/// after sources whose counts sum to `t`, gives table `k`: the last entry
/// of its table, moved like the others.
pub open spec fn closing_of(t: (int, int, int, int, int), m: AssetMeta, r: Seq<u8>, k: int) -> Seq<
    u8,
> {
    if k == 3 {
        moved_words(r, m.offset_loop_bases + 4 * m.loop_count, 1, t.3)
    } else if k == 5 {
        moved_words(r, m.offset_object_loop_counts + 4 * m.object_count, 1, t.2)
    } else if k == 7 {
        moved_words(r, m.offset_vert_bases + 4 * m.object_count, 1, t.0)
    } else if k == 8 {
        moved_words(r, m.offset_edge_bases + 4 * m.object_count, 1, t.1)
    } else {
        Seq::empty()
    }
}

/// The closing entry of table `k` of a merge: that of the last source.
pub open spec fn closing(s: Seq<(AssetMeta, Seq<u8>)>, k: int) -> Seq<u8> {
    if s.len() == 0 {
        Seq::empty()
    } else {
        closing_of(totals(s.drop_last()), s.last().0, s.last().1, k)
    }
}

/// The regions a merge writes once: the group name, and the canonical
/// transform and asset embedding of the first source.
pub open spec fn once(s: Seq<(AssetMeta, Seq<u8>)>, k: int) -> Seq<u8> {
    if k == 10 {
        encode_utf8(merged_name(s))
    } else if s.len() == 0 {
        Seq::empty()
    } else if k == 12 {
        section(s[0].1, s[0].0.offset_canonical_transform as int, CANONICAL_TRANSFORM_SIZE as int)
    } else if k == 13 {
        section(s[0].1, s[0].0.offset_asset_embedding as int, ASSET_EMBEDDING_SIZE as int)
    } else {
        Seq::empty()
    }
}

/// The contents of the fourteen regions of a merge, in layout order.
pub open spec fn merged_regions(s: Seq<(AssetMeta, Seq<u8>)>) -> Seq<Seq<u8>> {
    Seq::new(14, |k: int| gathered(s, k) + closing(s, k) + once(s, k))
}

/// Where the fourteen regions of the asset with header `m` start, in
/// layout order.
pub open spec fn region_starts(m: AssetMeta) -> Seq<int> {
    seq![
        m.offset_uuids as int,
        m.offset_verts as int,
        m.offset_edges as int,
        m.offset_loop_bases as int,
        m.offset_loops as int,
        m.offset_object_loop_counts as int,
        m.offset_transforms as int,
        m.offset_vert_bases as int,
        m.offset_edge_bases as int,
        m.offset_object_names as int,
        m.offset_group_name as int,
        m.offset_embeddings as int,
        m.offset_canonical_transform as int,
        m.offset_asset_embedding as int,
    ]
}

/// Whether a source can be merged after sources whose counts sum to `t`:
/// its sections lie inside its segment and its moved tables stay within 32
/// bits.
pub open spec fn source_fits(m: AssetMeta, r: Seq<u8>, t: (int, int, int, int, int)) -> bool {
    &&& sections_within(m, r)
    &&& table_fits(r, m.offset_loop_bases as int, m.loop_count as nat, t.3)
    &&& table_fits(r, m.offset_object_loop_counts as int, m.object_count as nat, t.2)
    &&& table_fits(r, m.offset_vert_bases as int, m.object_count as nat, t.0)
    &&& table_fits(r, m.offset_edge_bases as int, m.object_count as nat, t.1)
}

/// The total size of the layout of a merge of `s`.
pub open spec fn merged_total(s: Seq<(AssetMeta, Seq<u8>)>) -> int {
    let t = totals(s);
    cursor_after(
        layout_sizes(
            t.0 as u32,
            t.1 as u32,
            t.2 as u32,
            t.3 as u32,
            t.4 as u32,
            encode_utf8(merged_name(s)).len(),
        ),
        14,
    )
}

/// Whether the sources `s` can be merged into a destination of `len`
/// bytes: the header can be computed, the merged asset fits in the
/// destination and every source can be copied.
pub open spec fn merge_fits(s: Seq<(AssetMeta, Seq<u8>)>, len: nat) -> bool {
    &&& header_fits(s)
    &&& merged_total(s) <= len
    &&& forall|i: int|
        0 <= i < s.len() ==> #[trigger] source_fits(s[i].0, s[i].1, totals(s.take(i)))
}

/// What a merge of `s` returns and writes: `m` and `total` are the header
/// and segment size laid out for the summed counts and the group name,
/// surface context and identifier of the last source; `after` is `before`
/// with the record of `m` at the start and each region of the merged asset
/// at its offset in `m`, holding the regions of the sources one after the
/// other.
pub open spec fn merged(
    s: Seq<(AssetMeta, Seq<u8>)>,
    before: Seq<u8>,
    after: Seq<u8>,
    m: AssetMeta,
    total: usize,
) -> bool {
    let t = totals(s);
    &&& laid_out(
        m,
        total,
        t.0 as u32,
        t.1 as u32,
        t.2 as u32,
        t.3 as u32,
        t.4 as u32,
        merged_surface(s),
        encode_utf8(merged_name(s)).len(),
        m.uuid,
    )
    &&& merged_uuid(s, m.uuid)
    &&& after == fill(
        splice(before, 0, asset_meta_image(m)),
        region_starts(m),
        merged_regions(s),
    )
}

/// `c` with what the source adds appended to each region.
pub open spec fn step(c: Seq<Seq<u8>>, t: (int, int, int, int, int), m: AssetMeta, r: Seq<u8>) -> Seq<
    Seq<u8>,
> {
    Seq::new(c.len(), |k: int| c[k] + contribution(t, m, r, k))
}

/// The counts over a prefix of the sources are at most those over all of
/// them.
proof fn lemma_totals_prefix(s: Seq<(AssetMeta, Seq<u8>)>, k: int)
    requires
        0 <= k <= s.len(),
    ensures
        0 <= totals(s.take(k)).0 <= totals(s).0,
        0 <= totals(s.take(k)).1 <= totals(s).1,
        0 <= totals(s.take(k)).2 <= totals(s).2,
        0 <= totals(s.take(k)).3 <= totals(s).3,
        0 <= totals(s.take(k)).4 <= totals(s).4,
    decreases s.len(),
{
    if k == s.len() {
        assert(s.take(k) =~= s);
        if s.len() > 0 {
            lemma_totals_prefix(s.drop_last(), k - 1);
            assert(s.drop_last().take(k - 1) =~= s.drop_last());
        }
    } else {
        lemma_totals_prefix(s.drop_last(), k);
        assert(s.drop_last().take(k) =~= s.take(k));
    }
}

/// One more source adds its counts to the totals.
proof fn lemma_totals_step(s: Seq<(AssetMeta, Seq<u8>)>, i: int)
    requires
        0 <= i < s.len(),
    ensures
        s.take(i + 1).drop_last() == s.take(i),
        s.take(i + 1).last() == s[i],
        totals(s.take(i + 1)).0 == totals(s.take(i)).0 + s[i].0.vert_count,
        totals(s.take(i + 1)).1 == totals(s.take(i)).1 + s[i].0.edge_count,
        totals(s.take(i + 1)).2 == totals(s.take(i)).2 + s[i].0.loop_count,
        totals(s.take(i + 1)).3 == totals(s.take(i)).3 + s[i].0.total_loop_lengths,
        totals(s.take(i + 1)).4 == totals(s.take(i)).4 + s[i].0.object_count,
{
    assert(s.take(i + 1).drop_last() =~= s.take(i));
}

/// The sums of the counts of the sources.
fn sum_counts(sources: &[(&AssetMeta, &[u8])]) -> (t: (u32, u32, u32, u32, u32))
    requires
        totals_fit(sources_view(sources@)),
    ensures
        t.0 == totals(sources_view(sources@)).0,
        t.1 == totals(sources_view(sources@)).1,
        t.2 == totals(sources_view(sources@)).2,
        t.3 == totals(sources_view(sources@)).3,
        t.4 == totals(sources_view(sources@)).4,
{
    let ghost s = sources_view(sources@);
    let n = sources.len();
    proof {
        lemma_totals_prefix(s, 0);
        assert(s.take(0) =~= Seq::<(AssetMeta, Seq<u8>)>::empty());
    }
    let mut verts: u32 = 0;
    let mut edges: u32 = 0;
    let mut loops: u32 = 0;
    let mut loop_lengths: u32 = 0;
    let mut objects: u32 = 0;
    let mut i: usize = 0;
    while i < n
        invariant
            n == sources@.len(),
            s == sources_view(sources@),
            totals_fit(s),
            i <= n,
            verts == totals(s.take(i as int)).0,
            edges == totals(s.take(i as int)).1,
            loops == totals(s.take(i as int)).2,
            loop_lengths == totals(s.take(i as int)).3,
            objects == totals(s.take(i as int)).4,
        decreases n - i,
    {
        let meta = sources[i].0;
        proof {
            assert(s[i as int].0 == *meta);
            lemma_totals_step(s, i as int);
            lemma_totals_prefix(s, i + 1);
        }
        verts = verts + meta.vert_count;
        edges = edges + meta.edge_count;
        loops = loops + meta.loop_count;
        loop_lengths = loop_lengths + meta.total_loop_lengths;
        objects = objects + meta.object_count;
        i = i + 1;
    }
    proof {
        assert(s.take(n as int) =~= s);
    }
    (verts, edges, loops, loop_lengths, objects)
}


/// The length of what a source adds to each region.
proof fn lemma_contribution_len(t: (int, int, int, int, int), m: AssetMeta, r: Seq<u8>)
    requires
        sections_within(m, r),
    ensures
        forall|k: int|
            0 <= k < 14 ==> #[trigger] contribution(t, m, r, k).len() == region_len(
                counts_of(m),
                k,
            ),
        forall|k: int|
            0 <= k < 14 ==> #[trigger] closing_of(t, m, r, k).len() == (if k == 3 || k == 5 || k
                == 7 || k == 8 {
                4int
            } else {
                0int
            }),
{
    lemma_shifted_len(section(r, m.offset_loop_bases as int, 4 * m.loop_count), m.loop_count as nat, t.3 as u32);
    lemma_shifted_len(section(r, m.offset_object_loop_counts as int, 4 * m.object_count), m.object_count as nat, t.2 as u32);
    lemma_shifted_len(section(r, m.offset_vert_bases as int, 4 * m.object_count), m.object_count as nat, t.0 as u32);
    lemma_shifted_len(section(r, m.offset_edge_bases as int, 4 * m.object_count), m.object_count as nat, t.1 as u32);
    lemma_shifted_len(section(r, m.offset_loop_bases + 4 * m.loop_count, 4), 1, t.3 as u32);
    lemma_shifted_len(section(r, m.offset_object_loop_counts + 4 * m.object_count, 4), 1, t.2 as u32);
    lemma_shifted_len(section(r, m.offset_vert_bases + 4 * m.object_count, 4), 1, t.0 as u32);
    lemma_shifted_len(section(r, m.offset_edge_bases + 4 * m.object_count, 4), 1, t.1 as u32);
}

/// What the sources add to a region takes the room their summed counts
/// give it.
proof fn lemma_gathered_len(s: Seq<(AssetMeta, Seq<u8>)>, k: int)
    requires
        0 <= k < 14,
        forall|i: int| 0 <= i < s.len() ==> #[trigger] sections_within(s[i].0, s[i].1),
    ensures
        gathered(s, k).len() == region_len(totals(s), k),
    decreases s.len(),
{
    if s.len() > 0 {
        let p = s.drop_last();
        assert forall|i: int| 0 <= i < p.len() implies #[trigger] sections_within(p[i].0, p[i].1) by {
            assert(sections_within(s[i].0, s[i].1));
        }
        lemma_gathered_len(p, k);
        assert(sections_within(s[s.len() - 1].0, s[s.len() - 1].1));
        lemma_contribution_len(totals(p), s.last().0, s.last().1);
    }
}

/// Every source of a mergeable sequence has its sections inside its
/// segment.
proof fn lemma_all_within(s: Seq<(AssetMeta, Seq<u8>)>, len: nat)
    requires
        merge_fits(s, len),
    ensures
        forall|i: int| 0 <= i < s.len() ==> #[trigger] sections_within(s[i].0, s[i].1),
{
    assert forall|i: int| 0 <= i < s.len() implies #[trigger] sections_within(s[i].0, s[i].1) by {
        assert(source_fits(s[i].0, s[i].1, totals(s.take(i))));
    }
}

/// The regions of a merge fit the layout of its header: each lies inside
/// its section, so they lie inside the segment, in order.
#[verifier::rlimit(40)]
proof fn lemma_regions_fit(s: Seq<(AssetMeta, Seq<u8>)>, m: AssetMeta, total: usize, len: nat)
    requires
        merge_fits(s, len),
        laid_out(
            m,
            total,
            totals(s).0 as u32,
            totals(s).1 as u32,
            totals(s).2 as u32,
            totals(s).3 as u32,
            totals(s).4 as u32,
            merged_surface(s),
            encode_utf8(merged_name(s)).len(),
            m.uuid,
        ),
    ensures
        fits_between(region_starts(m), merged_regions(s), total as int),
        forall|k: int|
            0 <= k < 14 ==> #[trigger] merged_regions(s)[k].len() >= region_len(totals(s), k),
        forall|k: int| 0 <= k < 14 ==> #[trigger] region_starts(m)[k] >= 192,
        192 <= total,
{
    let t = totals(s);
    let nl = encode_utf8(merged_name(s)).len();
    let sz = layout_sizes(t.0 as u32, t.1 as u32, t.2 as u32, t.3 as u32, t.4 as u32, nl);
    let st = region_starts(m);
    let mr = merged_regions(s);
    lemma_layout_sizes(t.0 as u32, t.1 as u32, t.2 as u32, t.3 as u32, t.4 as u32, nl);
    lemma_all_within(s, len);
    if s.len() > 0 {
        assert(sections_within(s[s.len() - 1].0, s[s.len() - 1].1));
        assert(sections_within(s[0].0, s[0].1));
        lemma_contribution_len(totals(s.drop_last()), s.last().0, s.last().1);
    }
    assert forall|k: int| 0 <= k < 14 implies #[trigger] mr[k].len() <= sz[k] && mr[k].len()
        >= region_len(t, k) && st[k] == cursor_after(sz, k as nat) by {
        lemma_gathered_len(s, k);
    }
    assert forall|i: int| 0 <= i < mr.len() implies 192 <= #[trigger] st[i] && st[i] + mr[i].len()
        <= total by {
        lemma_layout_sections(sz, i as nat);
        lemma_layout_monotone(sz, (i + 1) as nat, 14);
    }
    lemma_layout_monotone(sz, 0, 14);
    assert forall|i: int, j: int| 0 <= i < j < mr.len() implies #[trigger] st[i] + mr[i].len()
        <= #[trigger] st[j] by {
        lemma_layout_sections(sz, i as nat);
        lemma_layout_monotone(sz, (i + 1) as nat, j as nat);
    }
}

/// Appending `piece` to region `k` of `cur` keeps every region within its
/// final length, so the regions still fit.
proof fn lemma_part(
    starts: Seq<int>,
    full: Seq<Seq<u8>>,
    end: int,
    cur: Seq<Seq<u8>>,
    k: int,
    piece: Seq<u8>,
)
    requires
        fits_between(starts, full, end),
        cur.len() == full.len(),
        0 <= k < cur.len(),
        forall|j: int| 0 <= j < cur.len() ==> #[trigger] cur[j].len() <= full[j].len(),
        cur[k].len() + piece.len() <= full[k].len(),
    ensures
        fits_between(starts, cur.update(k, cur[k] + piece), end),
        forall|j: int|
            0 <= j < cur.len() ==> #[trigger] cur.update(k, cur[k] + piece)[j].len()
                <= full[j].len(),
{
    let c2 = cur.update(k, cur[k] + piece);
    assert forall|j: int| 0 <= j < c2.len() implies #[trigger] c2[j].len() <= full[j].len() by {
        if j == k {
        } else {
            assert(cur[j].len() <= full[j].len());
        }
    }
    lemma_fits_shorter(starts, full, c2, end);
}

/// The counts `t` as integers.
pub open spec fn ints(t: (u32, u32, u32, u32, u32)) -> (int, int, int, int, int) {
    (t.0 as int, t.1 as int, t.2 as int, t.3 as int, t.4 as int)
}

/// Appends what the source with header `meta` and segment `seg` adds to
/// each region of the merged asset with header `m`, after sources whose
/// counts sum to `cum`.
#[verifier::rlimit(40)]
fn copy_source(
    dest: &mut [u8],
    m: &AssetMeta,
    meta: &AssetMeta,
    seg: &[u8],
    cum: (u32, u32, u32, u32, u32),
    Ghost(d1): Ghost<Seq<u8>>,
    Ghost(c): Ghost<Seq<Seq<u8>>>,
    Ghost(total): Ghost<int>,
)
    requires
        old(dest)@ == fill(d1, region_starts(*m), c),
        c.len() == 14,
        total <= d1.len(),
        total <= usize::MAX,
        source_fits(*meta, seg@, ints(cum)),
        fits_between(region_starts(*m), step(c, ints(cum), *meta, seg@), total),
        forall|k: int| 0 <= k < 14 ==> #[trigger] c[k].len() == region_len(ints(cum), k),
    ensures
        final(dest)@ == fill(d1, region_starts(*m), step(c, ints(cum), *meta, seg@)),
{
    let ghost st = region_starts(*m);
    let ghost t = ints(cum);
    let ghost full = step(c, t, *meta, seg@);
    let ghost r = seg@;
    let ghost mut cur = c;
    proof {
        lemma_contribution_len(t, *meta, r);
        assert forall|j: int| 0 <= j < 14 implies #[trigger] cur[j].len() <= full[j].len() by {}
        assert forall|j: int| 0 <= j < 14 implies #[trigger] st[j] + full[j].len() <= total by {
            assert(0 <= st[j] && st[j] + full[j].len() <= total);
        }
    }
    let n = meta.object_count as usize;
    // identifiers
    let len = uuids_byte_size(meta.object_count);
    proof {
        lemma_part(st, full, total, cur, 0, contribution(t, *meta, r, 0));
    }
    append_bytes(dest, m.offset_uuids + 32 * (cum.4 as usize), seg, meta.offset_uuids, len,
        Ghost(d1), Ghost(st), Ghost(cur), Ghost(total), Ghost(0));
    proof {
        cur = cur.update(0, cur[0] + contribution(t, *meta, r, 0));
    }
    // vertices
    let len = verts_byte_size(meta.vert_count);
    proof {
        lemma_part(st, full, total, cur, 1, contribution(t, *meta, r, 1));
    }
    append_bytes(dest, m.offset_verts + 12 * (cum.0 as usize), seg, meta.offset_verts, len,
        Ghost(d1), Ghost(st), Ghost(cur), Ghost(total), Ghost(1));
    proof {
        cur = cur.update(1, cur[1] + contribution(t, *meta, r, 1));
    }
    // edges
    let len = edges_byte_size(meta.edge_count);
    proof {
        lemma_part(st, full, total, cur, 2, contribution(t, *meta, r, 2));
    }
    append_bytes(dest, m.offset_edges + 8 * (cum.1 as usize), seg, meta.offset_edges, len,
        Ghost(d1), Ghost(st), Ghost(cur), Ghost(total), Ghost(2));
    proof {
        cur = cur.update(2, cur[2] + contribution(t, *meta, r, 2));
    }
    // loop bases, moved past the loop lengths before
    proof {
        lemma_part(st, full, total, cur, 3, contribution(t, *meta, r, 3));
    }
    append_shifted(dest, m.offset_loop_bases + 4 * (cum.2 as usize), seg, meta.offset_loop_bases,
        meta.loop_count as usize, cum.3, Ghost(d1), Ghost(st), Ghost(cur), Ghost(total), Ghost(3));
    proof {
        cur = cur.update(3, cur[3] + contribution(t, *meta, r, 3));
    }
    // loops
    let len = loops_byte_size(meta.total_loop_lengths);
    proof {
        lemma_part(st, full, total, cur, 4, contribution(t, *meta, r, 4));
    }
    append_bytes(dest, m.offset_loops + 4 * (cum.3 as usize), seg, meta.offset_loops, len,
        Ghost(d1), Ghost(st), Ghost(cur), Ghost(total), Ghost(4));
    proof {
        cur = cur.update(4, cur[4] + contribution(t, *meta, r, 4));
    }
    // object loop counts, moved past the loops before
    proof {
        lemma_part(st, full, total, cur, 5, contribution(t, *meta, r, 5));
    }
    append_shifted(dest, m.offset_object_loop_counts + 4 * (cum.4 as usize), seg,
        meta.offset_object_loop_counts, n, cum.2, Ghost(d1), Ghost(st), Ghost(cur), Ghost(total),
        Ghost(5));
    proof {
        cur = cur.update(5, cur[5] + contribution(t, *meta, r, 5));
    }
    // transforms
    let len = transforms_byte_size(meta.object_count);
    proof {
        lemma_part(st, full, total, cur, 6, contribution(t, *meta, r, 6));
    }
    append_bytes(dest, m.offset_transforms + 64 * (cum.4 as usize), seg, meta.offset_transforms,
        len, Ghost(d1), Ghost(st), Ghost(cur), Ghost(total), Ghost(6));
    proof {
        cur = cur.update(6, cur[6] + contribution(t, *meta, r, 6));
    }
    // vertex bases, moved past the vertices before
    proof {
        lemma_part(st, full, total, cur, 7, contribution(t, *meta, r, 7));
    }
    append_shifted(dest, m.offset_vert_bases + 4 * (cum.4 as usize), seg, meta.offset_vert_bases,
        n, cum.0, Ghost(d1), Ghost(st), Ghost(cur), Ghost(total), Ghost(7));
    proof {
        cur = cur.update(7, cur[7] + contribution(t, *meta, r, 7));
    }
    // edge bases, moved past the edges before
    proof {
        lemma_part(st, full, total, cur, 8, contribution(t, *meta, r, 8));
    }
    append_shifted(dest, m.offset_edge_bases + 4 * (cum.4 as usize), seg, meta.offset_edge_bases,
        n, cum.1, Ghost(d1), Ghost(st), Ghost(cur), Ghost(total), Ghost(8));
    proof {
        cur = cur.update(8, cur[8] + contribution(t, *meta, r, 8));
    }
    // object names
    let len = object_names_byte_size(meta.object_count);
    proof {
        lemma_part(st, full, total, cur, 9, contribution(t, *meta, r, 9));
    }
    append_bytes(dest, m.offset_object_names + 64 * (cum.4 as usize), seg,
        meta.offset_object_names, len, Ghost(d1), Ghost(st), Ghost(cur), Ghost(total), Ghost(9));
    proof {
        cur = cur.update(9, cur[9] + contribution(t, *meta, r, 9));
    }
    // embeddings
    let len = embeddings_byte_size(meta.object_count);
    proof {
        lemma_part(st, full, total, cur, 11, contribution(t, *meta, r, 11));
    }
    append_bytes(dest, m.offset_embeddings + 1024 * (cum.4 as usize), seg, meta.offset_embeddings,
        len, Ghost(d1), Ghost(st), Ghost(cur), Ghost(total), Ghost(11));
    proof {
        cur = cur.update(11, cur[11] + contribution(t, *meta, r, 11));
        assert forall|k: int| 0 <= k < 14 implies #[trigger] cur[k] =~= full[k] by {}
        assert(cur =~= full);
    }
}

/// `c` with the closing entries that the source gives the tables appended.
pub open spec fn closed(c: Seq<Seq<u8>>, t: (int, int, int, int, int), m: AssetMeta, r: Seq<u8>) -> Seq<
    Seq<u8>,
> {
    Seq::new(c.len(), |k: int| c[k] + closing_of(t, m, r, k))
}

/// Appends to the four tables of the merged asset with header `m` the
/// closing entries of the last source, which follows sources whose counts
/// sum to `prev`; `tot` is the sum over all sources.
fn close_tables(
    dest: &mut [u8],
    m: &AssetMeta,
    last: &AssetMeta,
    seg: &[u8],
    prev: (u32, u32, u32, u32, u32),
    tot: (u32, u32, u32, u32, u32),
    Ghost(d1): Ghost<Seq<u8>>,
    Ghost(c): Ghost<Seq<Seq<u8>>>,
    Ghost(total): Ghost<int>,
)
    requires
        old(dest)@ == fill(d1, region_starts(*m), c),
        c.len() == 14,
        total <= d1.len(),
        total <= usize::MAX,
        source_fits(*last, seg@, ints(prev)),
        fits_between(region_starts(*m), closed(c, ints(prev), *last, seg@), total),
        forall|k: int| 0 <= k < 14 ==> #[trigger] c[k].len() == region_len(ints(tot), k),
    ensures
        final(dest)@ == fill(d1, region_starts(*m), closed(c, ints(prev), *last, seg@)),
{
    let ghost st = region_starts(*m);
    let ghost t = ints(prev);
    let ghost full = closed(c, t, *last, seg@);
    let ghost r = seg@;
    let ghost mut cur = c;
    proof {
        lemma_contribution_len(t, *last, r);
        assert forall|j: int| 0 <= j < 14 implies #[trigger] cur[j].len() <= full[j].len() by {}
        assert forall|j: int| 0 <= j < 14 implies #[trigger] st[j] + full[j].len() <= total by {
            assert(0 <= st[j] && st[j] + full[j].len() <= total);
        }
    }
    let n = last.object_count as usize;
    let _ = seg.len();
    proof {
        assert(sections_within(*last, r));
        lemma_part(st, full, total, cur, 3, closing_of(t, *last, r, 3));
    }
    append_shifted(dest, m.offset_loop_bases + 4 * (tot.2 as usize), seg,
        last.offset_loop_bases + 4 * (last.loop_count as usize), 1, prev.3, Ghost(d1), Ghost(st),
        Ghost(cur), Ghost(total), Ghost(3));
    proof {
        cur = cur.update(3, cur[3] + closing_of(t, *last, r, 3));
        lemma_part(st, full, total, cur, 5, closing_of(t, *last, r, 5));
    }
    append_shifted(dest, m.offset_object_loop_counts + 4 * (tot.4 as usize), seg,
        last.offset_object_loop_counts + 4 * n, 1, prev.2, Ghost(d1), Ghost(st), Ghost(cur),
        Ghost(total), Ghost(5));
    proof {
        cur = cur.update(5, cur[5] + closing_of(t, *last, r, 5));
        lemma_part(st, full, total, cur, 7, closing_of(t, *last, r, 7));
    }
    append_shifted(dest, m.offset_vert_bases + 4 * (tot.4 as usize), seg,
        last.offset_vert_bases + 4 * n, 1, prev.0, Ghost(d1), Ghost(st), Ghost(cur), Ghost(total),
        Ghost(7));
    proof {
        cur = cur.update(7, cur[7] + closing_of(t, *last, r, 7));
        lemma_part(st, full, total, cur, 8, closing_of(t, *last, r, 8));
    }
    append_shifted(dest, m.offset_edge_bases + 4 * (tot.4 as usize), seg,
        last.offset_edge_bases + 4 * n, 1, prev.1, Ghost(d1), Ghost(st), Ghost(cur), Ghost(total),
        Ghost(8));
    proof {
        cur = cur.update(8, cur[8] + closing_of(t, *last, r, 8));
        assert forall|k: int| 0 <= k < 14 implies #[trigger] cur[k] =~= full[k] by {}
        assert(cur =~= full);
    }
}

/// The header of a merge of the sources, the total size of its layout and
/// its group name.
fn merged_header(sources: &[(&AssetMeta, &[u8])]) -> (r: Result<(AssetMeta, usize, String), String>)
    requires
        header_fits(sources_view(sources@)),
    ensures
        r is Ok,
        r is Ok ==> laid_out(
            r->Ok_0.0,
            r->Ok_0.1,
            totals(sources_view(sources@)).0 as u32,
            totals(sources_view(sources@)).1 as u32,
            totals(sources_view(sources@)).2 as u32,
            totals(sources_view(sources@)).3 as u32,
            totals(sources_view(sources@)).4 as u32,
            merged_surface(sources_view(sources@)),
            encode_utf8(merged_name(sources_view(sources@))).len(),
            r->Ok_0.0.uuid,
        ),
        r is Ok ==> merged_uuid(sources_view(sources@), r->Ok_0.0.uuid),
        r is Ok ==> r->Ok_0.2@ == merged_name(sources_view(sources@)),
{
    let ghost s = sources_view(sources@);
    let n = sources.len();
    let (total_verts, total_edges, total_loops, total_loop_lengths, object_count) = sum_counts(
        sources,
    );
    let mut surface_context: u16 = 0;
    let mut uuid = Uuid { bytes: [0u8; 32] };
    let mut group_name = String::new();
    if n > 0 {
        let last = sources[n - 1].0;
        proof {
            assert(s.last() == (*last, sources@[n - 1].1@));
        }
        surface_context = last.surface_context;
        uuid = last.uuid;
        group_name = last.get_group_name(sources[n - 1].1);
    }
    proof {
        assert(group_name@ == merged_name(s));
        if n == 0 {
            assert(uuid.bytes@ =~= Seq::new(32, |i: int| 0u8));
        }
    }
    match AssetMeta::new(
        total_verts,
        total_edges,
        total_loops,
        total_loop_lengths,
        object_count,
        surface_context,
        group_name.as_str(),
        uuid,
    ) {
        Ok((m, total)) => Ok((m, total, group_name)),
        Err(e) => Err(e),
    }
}

/// The regions that the first `j` sources fill, tables not yet closed.
pub open spec fn gathered_regions(s: Seq<(AssetMeta, Seq<u8>)>) -> Seq<Seq<u8>> {
    Seq::new(14, |k: int| gathered(s, k))
}

/// Appends what every source adds to each region of the merged asset with
/// header `m`, in source order; returns the summed counts.
fn gather_sources(
    dest: &mut [u8],
    m: &AssetMeta,
    sources: &[(&AssetMeta, &[u8])],
    total: usize,
    Ghost(d1): Ghost<Seq<u8>>,
    Ghost(len): Ghost<nat>,
) -> (cum: (u32, u32, u32, u32, u32))
    requires
        old(dest)@ == d1,
        merge_fits(sources_view(sources@), len),
        total <= d1.len(),
        fits_between(region_starts(*m), merged_regions(sources_view(sources@)), total as int),
        forall|k: int|
            0 <= k < 14 ==> #[trigger] merged_regions(sources_view(sources@))[k].len()
                >= region_len(totals(sources_view(sources@)), k),
    ensures
        final(dest)@ == fill(d1, region_starts(*m), gathered_regions(sources_view(sources@))),
        ints(cum) == totals(sources_view(sources@)),
{
    let ghost s = sources_view(sources@);
    let ghost st = region_starts(*m);
    let ghost full = merged_regions(s);
    let ghost mut c = gathered_regions(s.take(0));
    let n = sources.len();
    proof {
        lemma_all_within(s, len);
        assert(s.take(0) =~= Seq::<(AssetMeta, Seq<u8>)>::empty());
        assert forall|k: int| 0 <= k < 14 implies #[trigger] c[k].len() <= full[k].len() by {}
        lemma_fits_shorter(st, full, c, total as int);
        lemma_fill_empty(d1, st, c, total as int);
        lemma_totals_prefix(s, 0);
    }
    let mut cum: (u32, u32, u32, u32, u32) = (0, 0, 0, 0, 0);
    let mut j: usize = 0;
    while j < n
        invariant
            n == sources@.len(),
            s == sources_view(sources@),
            merge_fits(s, len),
            forall|i: int| 0 <= i < s.len() ==> #[trigger] sections_within(s[i].0, s[i].1),
            total <= d1.len(),
            st == region_starts(*m),
            full == merged_regions(s),
            fits_between(st, full, total as int),
            forall|k: int| 0 <= k < 14 ==> #[trigger] full[k].len() >= region_len(totals(s), k),
            j <= n,
            dest@ == fill(d1, st, c),
            c == gathered_regions(s.take(j as int)),
            ints(cum) == totals(s.take(j as int)),
        decreases n - j,
    {
        let meta = sources[j].0;
        let seg = sources[j].1;
        let ghost p = s.take(j as int);
        let ghost q = s.take(j + 1);
        proof {
            assert(s[j as int] == (*meta, seg@));
            assert(source_fits(s[j as int].0, s[j as int].1, totals(s.take(j as int))));
            lemma_totals_step(s, j as int);
            lemma_totals_prefix(s, j + 1);
            assert forall|i: int| 0 <= i < p.len() implies #[trigger] sections_within(p[i].0, p[i].1) by {
                assert(sections_within(s[i].0, s[i].1));
            }
            assert forall|i: int| 0 <= i < q.len() implies #[trigger] sections_within(q[i].0, q[i].1) by {
                assert(sections_within(s[i].0, s[i].1));
            }
            assert forall|k: int| 0 <= k < 14 implies #[trigger] c[k].len() == region_len(ints(cum), k) by {
                lemma_gathered_len(p, k);
            }
            assert(step(c, ints(cum), *meta, seg@) =~= gathered_regions(q));
            assert forall|k: int| 0 <= k < 14 implies #[trigger] gathered_regions(q)[k].len()
                <= full[k].len() by {
                lemma_gathered_len(q, k);
            }
            lemma_fits_shorter(st, full, gathered_regions(q), total as int);
        }
        copy_source(dest, m, meta, seg, cum, Ghost(d1), Ghost(c), Ghost(total as int));
        proof {
            c = gathered_regions(q);
        }
        cum = (
            cum.0 + meta.vert_count,
            cum.1 + meta.edge_count,
            cum.2 + meta.loop_count,
            cum.3 + meta.total_loop_lengths,
            cum.4 + meta.object_count,
        );
        j = j + 1;
    }
    proof {
        assert(s.take(n as int) =~= s);
    }
    cum
}

/// Closes the four tables with the entries of the last source and writes
/// the group name and the first source's canonical transform and asset
/// embedding, after every source's regions have been gathered.
#[verifier::rlimit(40)]
fn finish_regions(
    dest: &mut [u8],
    m: &AssetMeta,
    sources: &[(&AssetMeta, &[u8])],
    cum: (u32, u32, u32, u32, u32),
    name: &String,
    total: usize,
    Ghost(d1): Ghost<Seq<u8>>,
    Ghost(len): Ghost<nat>,
)
    requires
        old(dest)@ == fill(d1, region_starts(*m), gathered_regions(sources_view(sources@))),
        merge_fits(sources_view(sources@), len),
        total <= d1.len(),
        ints(cum) == totals(sources_view(sources@)),
        name@ == merged_name(sources_view(sources@)),
        m.offset_group_name == region_starts(*m)[10],
        fits_between(region_starts(*m), merged_regions(sources_view(sources@)), total as int),
    ensures
        final(dest)@ == fill(d1, region_starts(*m), merged_regions(sources_view(sources@))),
{
    let ghost s = sources_view(sources@);
    let ghost mut c = gathered_regions(s);
    let ghost st = region_starts(*m);
    let ghost full = merged_regions(s);
    let n = sources.len();
    proof {
        lemma_all_within(s, len);
    }
    if n > 0 {
        let last = sources[n - 1].0;
        let seg = sources[n - 1].1;
        proof {
            assert(s.last() == (*last, seg@));
            assert(s.take(n - 1) =~= s.drop_last());
            lemma_totals_prefix(s, n - 1);
        }
        let prev = (
            cum.0 - last.vert_count,
            cum.1 - last.edge_count,
            cum.2 - last.loop_count,
            cum.3 - last.total_loop_lengths,
            cum.4 - last.object_count,
        );
        proof {
            assert(s.last() == (*last, seg@));
            assert(s.take(n - 1) =~= s.drop_last());
            assert(source_fits(s[n - 1].0, s[n - 1].1, totals(s.take(n - 1))));
            assert(ints(prev) == totals(s.drop_last()));
            assert forall|k: int| 0 <= k < 14 implies #[trigger] c[k].len() == region_len(ints(cum), k) by {
                lemma_gathered_len(s, k);
            }
            let cl = closed(c, ints(prev), *last, seg@);
            assert forall|k: int| 0 <= k < 14 implies #[trigger] cl[k].len() <= full[k].len() by {}
            lemma_fits_shorter(st, full, cl, total as int);
        }
        close_tables(dest, m, last, seg, prev, cum, Ghost(d1), Ghost(c), Ghost(total as int));
        proof {
            c = closed(c, ints(prev), *last, seg@);
        }
    }
    let ghost c_closed = Seq::new(14, |k: int| gathered(s, k) + closing(s, k));
    proof {
        assert forall|k: int| 0 <= k < 14 implies #[trigger] c[k] =~= c_closed[k] by {}
        assert(c =~= c_closed);
        lemma_gathered_len(s, 10);
    }
    let nb = name.as_str().as_bytes();
    proof {
        assert(nb@.subrange(0, nb@.len() as int) =~= once(s, 10));
        assert forall|k: int| 0 <= k < 14 implies #[trigger] c.update(10, c[10] + once(s, 10))[k].len() <= full[k].len() by {}
        lemma_fits_shorter(st, full, c.update(10, c[10] + once(s, 10)), total as int);
    }
    append_bytes(dest, m.offset_group_name, nb, 0, nb.len(), Ghost(d1), Ghost(st), Ghost(c),
        Ghost(total as int), Ghost(10));
    proof {
        c = c.update(10, c[10] + once(s, 10));
    }
    if n > 0 {
        let first = sources[0].0;
        let seg = sources[0].1;
        proof {
            assert(s[0] == (*first, seg@));
            assert(sections_within(s[0].0, s[0].1));
            lemma_gathered_len(s, 12);
            lemma_gathered_len(s, 13);
            assert forall|k: int| 0 <= k < 14 implies #[trigger] c.update(12, c[12] + once(s, 12))[k].len() <= full[k].len() by {}
            lemma_fits_shorter(st, full, c.update(12, c[12] + once(s, 12)), total as int);
        }
        append_bytes(dest, m.offset_canonical_transform, seg, first.offset_canonical_transform,
            CANONICAL_TRANSFORM_SIZE, Ghost(d1), Ghost(st), Ghost(c), Ghost(total as int),
            Ghost(12));
        proof {
            c = c.update(12, c[12] + once(s, 12));
            assert forall|k: int| 0 <= k < 14 implies #[trigger] c.update(13, c[13] + once(s, 13))[k].len() <= full[k].len() by {}
            lemma_fits_shorter(st, full, c.update(13, c[13] + once(s, 13)), total as int);
        }
        append_bytes(dest, m.offset_asset_embedding, seg, first.offset_asset_embedding,
            ASSET_EMBEDDING_SIZE, Ghost(d1), Ghost(st), Ghost(c), Ghost(total as int),
            Ghost(13));
        proof {
            c = c.update(13, c[13] + once(s, 13));
        }
    }
    proof {
        assert forall|k: int| 0 <= k < 14 implies #[trigger] c[k] =~= full[k] by {}
        assert(c =~= full);
    }
}

/// The merged asset holds, at each offset of its header, the contents of
/// that region.
pub proof fn lemma_merge_read_back(
    s: Seq<(AssetMeta, Seq<u8>)>,
    before: Seq<u8>,
    after: Seq<u8>,
    m: AssetMeta,
    total: usize,
    k: int,
)
    requires
        merge_fits(s, before.len()),
        merged(s, before, after, m, total),
        0 <= k < 14,
    ensures
        after.subrange(region_starts(m)[k], region_starts(m)[k] + merged_regions(s)[k].len())
            == merged_regions(s)[k],
{
    let st = region_starts(m);
    let mr = merged_regions(s);
    let d1 = splice(before, 0, asset_meta_image(m));
    lemma_regions_fit(s, m, total, before.len());
    lemma_meta_image_len(m);
    assert(d1.len() == before.len());
    lemma_fill_region(d1, st, mr, total as int, k);
}

/// Bytes before every region of a fill keep the record written there.
proof fn lemma_fill_keeps_head(
    before: Seq<u8>,
    image: Seq<u8>,
    starts: Seq<int>,
    contents: Seq<Seq<u8>>,
    end: int,
)
    requires
        image.len() == 192,
        fits_between(starts, contents, end),
        192 <= end <= before.len(),
        forall|i: int| 0 <= i < starts.len() ==> #[trigger] starts[i] >= 192,
    ensures
        fill(splice(before, 0, image), starts, contents).subrange(0, 192) == image,
{
    let d1 = splice(before, 0, image);
    let after = fill(d1, starts, contents);
    lemma_fill_len(d1, starts, contents, end);
    assert forall|p: int| 0 <= p < 192 implies #[trigger] after[p] == image[p] by {
        lemma_fill_frame(d1, starts, contents, end, p);
    }
    assert(after.subrange(0, 192) =~= image);
}

/// The merged asset holds its header record at the start.
pub proof fn lemma_merge_header(
    s: Seq<(AssetMeta, Seq<u8>)>,
    before: Seq<u8>,
    after: Seq<u8>,
    m: AssetMeta,
    total: usize,
)
    requires
        merge_fits(s, before.len()),
        merged(s, before, after, m, total),
    ensures
        after.subrange(0, 192) == asset_meta_image(m),
{
    lemma_regions_fit(s, m, total, before.len());
    lemma_meta_image_len(m);
    lemma_fill_keeps_head(before, asset_meta_image(m), region_starts(m), merged_regions(s), total as int);
}

/// The start of a merged asset is its header record in the field layout
/// of the header: the fourteen section offsets as 64-bit words from 0 (in
/// field order), the five counts as 32-bit words from 112, the group-name
/// length at 132, the surface context at 134, the identifier at 136 and the
/// six bounds from 168, all little-endian.
pub proof fn lemma_merge_header_fields(
    s: Seq<(AssetMeta, Seq<u8>)>,
    before: Seq<u8>,
    after: Seq<u8>,
    m: AssetMeta,
    total: usize,
)
    requires
        merge_fits(s, before.len()),
        merged(s, before, after, m, total),
    ensures
        le_u64(after.subrange(0, 8)) == m.offset_uuids as u64,
        le_u64(after.subrange(8, 16)) == m.offset_verts as u64,
        le_u64(after.subrange(16, 24)) == m.offset_edges as u64,
        le_u64(after.subrange(24, 32)) == m.offset_loops as u64,
        le_u64(after.subrange(32, 40)) == m.offset_loop_bases as u64,
        le_u64(after.subrange(40, 48)) == m.offset_object_loop_counts as u64,
        le_u64(after.subrange(48, 56)) == m.offset_vert_bases as u64,
        le_u64(after.subrange(56, 64)) == m.offset_edge_bases as u64,
        le_u64(after.subrange(64, 72)) == m.offset_transforms as u64,
        le_u64(after.subrange(72, 80)) == m.offset_object_names as u64,
        le_u64(after.subrange(80, 88)) == m.offset_group_name as u64,
        le_u64(after.subrange(88, 96)) == m.offset_embeddings as u64,
        le_u64(after.subrange(96, 104)) == m.offset_canonical_transform as u64,
        le_u64(after.subrange(104, 112)) == m.offset_asset_embedding as u64,
        le_u32(after.subrange(112, 116)) == m.vert_count,
        le_u32(after.subrange(116, 120)) == m.edge_count,
        le_u32(after.subrange(120, 124)) == m.loop_count,
        le_u32(after.subrange(124, 128)) == m.total_loop_lengths,
        le_u32(after.subrange(128, 132)) == m.object_count,
        le_u16(after.subrange(132, 134)) == m.group_name_length,
        le_u16(after.subrange(134, 136)) == m.surface_context,
        after.subrange(136, 168) == m.uuid.bytes@,
        le_u32(after.subrange(168, 172)) == m.bounds.min_x,
        le_u32(after.subrange(172, 176)) == m.bounds.min_z,
        le_u32(after.subrange(176, 180)) == m.bounds.max_x,
        le_u32(after.subrange(180, 184)) == m.bounds.max_y,
        le_u32(after.subrange(184, 188)) == m.bounds.min_y,
        le_u32(after.subrange(188, 192)) == m.bounds.max_z,
{
    lemma_merge_header(s, before, after, m, total);
    lemma_regions_fit(s, m, total, before.len());
    lemma_meta_image_len(m);
    lemma_fill_len(
        splice(before, 0, asset_meta_image(m)),
        region_starts(m),
        merged_regions(s),
        total as int,
    );
    lemma_merge_header_image(m, after);
}

/// The record of a header holds the section offsets from 0.
proof fn lemma_image_offsets(m: AssetMeta)
    ensures
        le_u64(asset_meta_image(m).subrange(0, 8)) == m.offset_uuids as u64,
        le_u64(asset_meta_image(m).subrange(8, 16)) == m.offset_verts as u64,
        le_u64(asset_meta_image(m).subrange(16, 24)) == m.offset_edges as u64,
        le_u64(asset_meta_image(m).subrange(24, 32)) == m.offset_loops as u64,
        le_u64(asset_meta_image(m).subrange(32, 40)) == m.offset_loop_bases as u64,
        le_u64(asset_meta_image(m).subrange(40, 48)) == m.offset_object_loop_counts as u64,
        le_u64(asset_meta_image(m).subrange(48, 56)) == m.offset_vert_bases as u64,
        le_u64(asset_meta_image(m).subrange(56, 64)) == m.offset_edge_bases as u64,
        le_u64(asset_meta_image(m).subrange(64, 72)) == m.offset_transforms as u64,
        le_u64(asset_meta_image(m).subrange(72, 80)) == m.offset_object_names as u64,
        le_u64(asset_meta_image(m).subrange(80, 88)) == m.offset_group_name as u64,
        le_u64(asset_meta_image(m).subrange(88, 96)) == m.offset_embeddings as u64,
        le_u64(asset_meta_image(m).subrange(96, 104)) == m.offset_canonical_transform as u64,
        le_u64(asset_meta_image(m).subrange(104, 112)) == m.offset_asset_embedding as u64,
{
    let img = asset_meta_image(m);
    lemma_meta_image_len(m);
    lemma_wire_seq_len(meta_offsets(m));
    lemma_wire_seq_len(meta_counts(m));
    lemma_wire_seq_len(meta_bounds(m));
    lemma_u16_le_roundtrip(m.group_name_length);
    lemma_u16_le_roundtrip(m.surface_context);
    let o = wire_seq(meta_offsets(m));
    lemma_wire_seq_index(meta_offsets(m), 0);
    lemma_u64_le_roundtrip(m.offset_uuids as u64);
    assert(img.subrange(0, 8) =~= o.subrange(0, 8));
    lemma_wire_seq_index(meta_offsets(m), 1);
    lemma_u64_le_roundtrip(m.offset_verts as u64);
    assert(img.subrange(8, 16) =~= o.subrange(8, 16));
    lemma_wire_seq_index(meta_offsets(m), 2);
    lemma_u64_le_roundtrip(m.offset_edges as u64);
    assert(img.subrange(16, 24) =~= o.subrange(16, 24));
    lemma_wire_seq_index(meta_offsets(m), 3);
    lemma_u64_le_roundtrip(m.offset_loops as u64);
    assert(img.subrange(24, 32) =~= o.subrange(24, 32));
    lemma_wire_seq_index(meta_offsets(m), 4);
    lemma_u64_le_roundtrip(m.offset_loop_bases as u64);
    assert(img.subrange(32, 40) =~= o.subrange(32, 40));
    lemma_wire_seq_index(meta_offsets(m), 5);
    lemma_u64_le_roundtrip(m.offset_object_loop_counts as u64);
    assert(img.subrange(40, 48) =~= o.subrange(40, 48));
    lemma_wire_seq_index(meta_offsets(m), 6);
    lemma_u64_le_roundtrip(m.offset_vert_bases as u64);
    assert(img.subrange(48, 56) =~= o.subrange(48, 56));
    lemma_wire_seq_index(meta_offsets(m), 7);
    lemma_u64_le_roundtrip(m.offset_edge_bases as u64);
    assert(img.subrange(56, 64) =~= o.subrange(56, 64));
    lemma_wire_seq_index(meta_offsets(m), 8);
    lemma_u64_le_roundtrip(m.offset_transforms as u64);
    assert(img.subrange(64, 72) =~= o.subrange(64, 72));
    lemma_wire_seq_index(meta_offsets(m), 9);
    lemma_u64_le_roundtrip(m.offset_object_names as u64);
    assert(img.subrange(72, 80) =~= o.subrange(72, 80));
    lemma_wire_seq_index(meta_offsets(m), 10);
    lemma_u64_le_roundtrip(m.offset_group_name as u64);
    assert(img.subrange(80, 88) =~= o.subrange(80, 88));
    lemma_wire_seq_index(meta_offsets(m), 11);
    lemma_u64_le_roundtrip(m.offset_embeddings as u64);
    assert(img.subrange(88, 96) =~= o.subrange(88, 96));
    lemma_wire_seq_index(meta_offsets(m), 12);
    lemma_u64_le_roundtrip(m.offset_canonical_transform as u64);
    assert(img.subrange(96, 104) =~= o.subrange(96, 104));
    lemma_wire_seq_index(meta_offsets(m), 13);
    lemma_u64_le_roundtrip(m.offset_asset_embedding as u64);
    assert(img.subrange(104, 112) =~= o.subrange(104, 112));
}

/// The record of a header holds the counts from 112.
proof fn lemma_image_counts(m: AssetMeta)
    ensures
        le_u32(asset_meta_image(m).subrange(112, 116)) == m.vert_count,
        le_u32(asset_meta_image(m).subrange(116, 120)) == m.edge_count,
        le_u32(asset_meta_image(m).subrange(120, 124)) == m.loop_count,
        le_u32(asset_meta_image(m).subrange(124, 128)) == m.total_loop_lengths,
        le_u32(asset_meta_image(m).subrange(128, 132)) == m.object_count,
{
    let img = asset_meta_image(m);
    lemma_meta_image_len(m);
    lemma_wire_seq_len(meta_offsets(m));
    lemma_wire_seq_len(meta_counts(m));
    lemma_wire_seq_len(meta_bounds(m));
    lemma_u16_le_roundtrip(m.group_name_length);
    lemma_u16_le_roundtrip(m.surface_context);
    let c = wire_seq(meta_counts(m));
    lemma_wire_seq_index(meta_counts(m), 0);
    lemma_u32_le_roundtrip(m.vert_count);
    assert(img.subrange(112, 116) =~= c.subrange(0, 4));
    lemma_wire_seq_index(meta_counts(m), 1);
    lemma_u32_le_roundtrip(m.edge_count);
    assert(img.subrange(116, 120) =~= c.subrange(4, 8));
    lemma_wire_seq_index(meta_counts(m), 2);
    lemma_u32_le_roundtrip(m.loop_count);
    assert(img.subrange(120, 124) =~= c.subrange(8, 12));
    lemma_wire_seq_index(meta_counts(m), 3);
    lemma_u32_le_roundtrip(m.total_loop_lengths);
    assert(img.subrange(124, 128) =~= c.subrange(12, 16));
    lemma_wire_seq_index(meta_counts(m), 4);
    lemma_u32_le_roundtrip(m.object_count);
    assert(img.subrange(128, 132) =~= c.subrange(16, 20));
}

/// The record of a header holds the name length, surface context, identifier and bounds from 132.
proof fn lemma_image_tail(m: AssetMeta)
    ensures
        le_u16(asset_meta_image(m).subrange(132, 134)) == m.group_name_length,
        le_u16(asset_meta_image(m).subrange(134, 136)) == m.surface_context,
        asset_meta_image(m).subrange(136, 168) == m.uuid.bytes@,
        le_u32(asset_meta_image(m).subrange(168, 172)) == m.bounds.min_x,
        le_u32(asset_meta_image(m).subrange(172, 176)) == m.bounds.min_z,
        le_u32(asset_meta_image(m).subrange(176, 180)) == m.bounds.max_x,
        le_u32(asset_meta_image(m).subrange(180, 184)) == m.bounds.max_y,
        le_u32(asset_meta_image(m).subrange(184, 188)) == m.bounds.min_y,
        le_u32(asset_meta_image(m).subrange(188, 192)) == m.bounds.max_z,
{
    let img = asset_meta_image(m);
    lemma_meta_image_len(m);
    lemma_wire_seq_len(meta_offsets(m));
    lemma_wire_seq_len(meta_counts(m));
    lemma_wire_seq_len(meta_bounds(m));
    lemma_u16_le_roundtrip(m.group_name_length);
    lemma_u16_le_roundtrip(m.surface_context);
    let b = wire_seq(meta_bounds(m));
    assert(img.subrange(132, 134) =~= u16_le(m.group_name_length));
    assert(img.subrange(134, 136) =~= u16_le(m.surface_context));
    assert(img.subrange(136, 168) =~= m.uuid.bytes@);
    lemma_wire_seq_index(meta_bounds(m), 0);
    lemma_u32_le_roundtrip(m.bounds.min_x);
    assert(img.subrange(168, 172) =~= b.subrange(0, 4));
    lemma_wire_seq_index(meta_bounds(m), 1);
    lemma_u32_le_roundtrip(m.bounds.min_z);
    assert(img.subrange(172, 176) =~= b.subrange(4, 8));
    lemma_wire_seq_index(meta_bounds(m), 2);
    lemma_u32_le_roundtrip(m.bounds.max_x);
    assert(img.subrange(176, 180) =~= b.subrange(8, 12));
    lemma_wire_seq_index(meta_bounds(m), 3);
    lemma_u32_le_roundtrip(m.bounds.max_y);
    assert(img.subrange(180, 184) =~= b.subrange(12, 16));
    lemma_wire_seq_index(meta_bounds(m), 4);
    lemma_u32_le_roundtrip(m.bounds.min_y);
    assert(img.subrange(184, 188) =~= b.subrange(16, 20));
    lemma_wire_seq_index(meta_bounds(m), 5);
    lemma_u32_le_roundtrip(m.bounds.max_z);
    assert(img.subrange(188, 192) =~= b.subrange(20, 24));
}

/// A sequence that starts with the record of `m` holds its fields at their
/// offsets.
proof fn lemma_merge_header_image(m: AssetMeta, after: Seq<u8>)
    requires
        192 <= after.len(),
        after.subrange(0, 192) == asset_meta_image(m),
    ensures
        le_u64(after.subrange(0, 8)) == m.offset_uuids as u64,
        le_u64(after.subrange(8, 16)) == m.offset_verts as u64,
        le_u64(after.subrange(16, 24)) == m.offset_edges as u64,
        le_u64(after.subrange(24, 32)) == m.offset_loops as u64,
        le_u64(after.subrange(32, 40)) == m.offset_loop_bases as u64,
        le_u64(after.subrange(40, 48)) == m.offset_object_loop_counts as u64,
        le_u64(after.subrange(48, 56)) == m.offset_vert_bases as u64,
        le_u64(after.subrange(56, 64)) == m.offset_edge_bases as u64,
        le_u64(after.subrange(64, 72)) == m.offset_transforms as u64,
        le_u64(after.subrange(72, 80)) == m.offset_object_names as u64,
        le_u64(after.subrange(80, 88)) == m.offset_group_name as u64,
        le_u64(after.subrange(88, 96)) == m.offset_embeddings as u64,
        le_u64(after.subrange(96, 104)) == m.offset_canonical_transform as u64,
        le_u64(after.subrange(104, 112)) == m.offset_asset_embedding as u64,
        le_u32(after.subrange(112, 116)) == m.vert_count,
        le_u32(after.subrange(116, 120)) == m.edge_count,
        le_u32(after.subrange(120, 124)) == m.loop_count,
        le_u32(after.subrange(124, 128)) == m.total_loop_lengths,
        le_u32(after.subrange(128, 132)) == m.object_count,
        le_u16(after.subrange(132, 134)) == m.group_name_length,
        le_u16(after.subrange(134, 136)) == m.surface_context,
        after.subrange(136, 168) == m.uuid.bytes@,
        le_u32(after.subrange(168, 172)) == m.bounds.min_x,
        le_u32(after.subrange(172, 176)) == m.bounds.min_z,
        le_u32(after.subrange(176, 180)) == m.bounds.max_x,
        le_u32(after.subrange(180, 184)) == m.bounds.max_y,
        le_u32(after.subrange(184, 188)) == m.bounds.min_y,
        le_u32(after.subrange(188, 192)) == m.bounds.max_z,
{
    let img = asset_meta_image(m);
    lemma_image_offsets(m);
    lemma_image_counts(m);
    lemma_image_tail(m);
    assert(after.subrange(0, 8) =~= img.subrange(0, 8));
    assert(after.subrange(8, 16) =~= img.subrange(8, 16));
    assert(after.subrange(16, 24) =~= img.subrange(16, 24));
    assert(after.subrange(24, 32) =~= img.subrange(24, 32));
    assert(after.subrange(32, 40) =~= img.subrange(32, 40));
    assert(after.subrange(40, 48) =~= img.subrange(40, 48));
    assert(after.subrange(48, 56) =~= img.subrange(48, 56));
    assert(after.subrange(56, 64) =~= img.subrange(56, 64));
    assert(after.subrange(64, 72) =~= img.subrange(64, 72));
    assert(after.subrange(72, 80) =~= img.subrange(72, 80));
    assert(after.subrange(80, 88) =~= img.subrange(80, 88));
    assert(after.subrange(88, 96) =~= img.subrange(88, 96));
    assert(after.subrange(96, 104) =~= img.subrange(96, 104));
    assert(after.subrange(104, 112) =~= img.subrange(104, 112));
    assert(after.subrange(112, 116) =~= img.subrange(112, 116));
    assert(after.subrange(116, 120) =~= img.subrange(116, 120));
    assert(after.subrange(120, 124) =~= img.subrange(120, 124));
    assert(after.subrange(124, 128) =~= img.subrange(124, 128));
    assert(after.subrange(128, 132) =~= img.subrange(128, 132));
    assert(after.subrange(132, 134) =~= img.subrange(132, 134));
    assert(after.subrange(134, 136) =~= img.subrange(134, 136));
    assert(after.subrange(136, 168) =~= img.subrange(136, 168));
    assert(after.subrange(168, 172) =~= img.subrange(168, 172));
    assert(after.subrange(172, 176) =~= img.subrange(172, 176));
    assert(after.subrange(176, 180) =~= img.subrange(176, 180));
    assert(after.subrange(180, 184) =~= img.subrange(180, 184));
    assert(after.subrange(184, 188) =~= img.subrange(184, 188));
    assert(after.subrange(188, 192) =~= img.subrange(188, 192));
}

/// What source `i` adds to region `k` lies in the gathered region right
/// after what the sources before it add.
#[verifier::rlimit(60)]
proof fn lemma_gathered_part(s: Seq<(AssetMeta, Seq<u8>)>, k: int, i: int)
    requires
        0 <= k < 14,
        0 <= i < s.len(),
        forall|j: int| 0 <= j < s.len() ==> #[trigger] sections_within(s[j].0, s[j].1),
    ensures
        region_len(totals(s.take(i)), k) <= region_len(totals(s.take(i + 1)), k) <= gathered(
            s,
            k,
        ).len(),
        gathered(s, k).subrange(
            region_len(totals(s.take(i)), k),
            region_len(totals(s.take(i + 1)), k),
        ) == contribution(totals(s.take(i)), s[i].0, s[i].1, k),
    decreases s.len(),
{
    let p = s.drop_last();
    let n = s.len() - 1;
    assert forall|j: int| 0 <= j < p.len() implies #[trigger] sections_within(p[j].0, p[j].1) by {
        assert(sections_within(s[j].0, s[j].1));
    }
    lemma_gathered_len(p, k);
    lemma_gathered_len(s, k);
    assert(sections_within(s[i].0, s[i].1));
    lemma_contribution_len(totals(s.take(i)), s[i].0, s[i].1);
    lemma_totals_step(s, i);
    lemma_totals_prefix(s, i);
    lemma_totals_prefix(s, i + 1);
    let c = contribution(totals(p), s.last().0, s.last().1, k);
    if i < n {
        assert(p.take(i) =~= s.take(i));
        assert(p.take(i + 1) =~= s.take(i + 1));
        assert(p[i] == s[i]);
        lemma_gathered_part(p, k, i);
        let a = region_len(totals(s.take(i)), k);
        let b = region_len(totals(s.take(i + 1)), k);
        assert((gathered(p, k) + c).subrange(a, b) =~= gathered(p, k).subrange(a, b));
    } else {
        assert(s.take(i) =~= p);
        assert(s.take(i + 1) =~= s);
        assert((gathered(p, k) + c).subrange(region_len(totals(p), k), gathered(s, k).len() as int) =~= c);
    }
}

/// Source `i`'s part of plain region `k` of a merged asset lies in the
/// region after the parts of the sources before it.
proof fn lemma_merged_section_part(
    s: Seq<(AssetMeta, Seq<u8>)>,
    after: Seq<u8>,
    m: AssetMeta,
    i: int,
    k: int,
)
    requires
        forall|j: int| 0 <= j < s.len() ==> #[trigger] sections_within(s[j].0, s[j].1),
        0 <= i < s.len(),
        0 <= k < 14,
        closing(s, k) == Seq::<u8>::empty(),
        once(s, k) == Seq::<u8>::empty(),
        0 <= region_starts(m)[k],
        region_starts(m)[k] + merged_regions(s)[k].len() <= after.len(),
        after.subrange(region_starts(m)[k], region_starts(m)[k] + merged_regions(s)[k].len())
            == merged_regions(s)[k],
    ensures
        after.subrange(
            region_starts(m)[k] + region_len(totals(s.take(i)), k),
            region_starts(m)[k] + region_len(totals(s.take(i + 1)), k),
        ) == contribution(totals(s.take(i)), s[i].0, s[i].1, k),
{
    lemma_gathered_part(s, k, i);
    lemma_totals_prefix(s, i);
    let mr = merged_regions(s)[k];
    let st = region_starts(m)[k];
    let g = gathered(s, k);
    assert(mr =~= g);
    let a = region_len(totals(s.take(i)), k);
    let b = region_len(totals(s.take(i + 1)), k);
    assert(0 <= a <= b <= mr.len());
    assert(after.subrange(st + a, st + b) =~= after.subrange(st, st + mr.len()).subrange(a, b));
}

/// Each source's sections lie in the merged asset one after the other: the
/// identifiers, vertices, edges, loops, transforms, object names and
/// embeddings of source `i` start, at the matching offset of the merged
/// header, after those of the sources before it (32, 12, 8, 4, 64, 64 and
/// 1024 bytes per object, vertex, edge, loop length, object, object and
/// object).
#[verifier::rlimit(60)]
pub proof fn lemma_merged_sections(
    s: Seq<(AssetMeta, Seq<u8>)>,
    before: Seq<u8>,
    after: Seq<u8>,
    m: AssetMeta,
    total: usize,
    i: int,
)
    requires
        merge_fits(s, before.len()),
        merged(s, before, after, m, total),
        0 <= i < s.len(),
    ensures
        after.subrange(
            m.offset_uuids + 32 * totals(s.take(i)).4,
            m.offset_uuids + 32 * totals(s.take(i)).4 + 32 * s[i].0.object_count,
        ) == s[i].1.subrange(s[i].0.offset_uuids as int, s[i].0.offset_uuids + 32 * s[i].0.object_count),
        after.subrange(
            m.offset_verts + 12 * totals(s.take(i)).0,
            m.offset_verts + 12 * totals(s.take(i)).0 + 12 * s[i].0.vert_count,
        ) == s[i].1.subrange(s[i].0.offset_verts as int, s[i].0.offset_verts + 12 * s[i].0.vert_count),
        after.subrange(
            m.offset_edges + 8 * totals(s.take(i)).1,
            m.offset_edges + 8 * totals(s.take(i)).1 + 8 * s[i].0.edge_count,
        ) == s[i].1.subrange(s[i].0.offset_edges as int, s[i].0.offset_edges + 8 * s[i].0.edge_count),
        after.subrange(
            m.offset_loops + 4 * totals(s.take(i)).3,
            m.offset_loops + 4 * totals(s.take(i)).3 + 4 * s[i].0.total_loop_lengths,
        ) == s[i].1.subrange(s[i].0.offset_loops as int, s[i].0.offset_loops + 4 * s[i].0.total_loop_lengths),
        after.subrange(
            m.offset_transforms + 64 * totals(s.take(i)).4,
            m.offset_transforms + 64 * totals(s.take(i)).4 + 64 * s[i].0.object_count,
        ) == s[i].1.subrange(s[i].0.offset_transforms as int, s[i].0.offset_transforms + 64 * s[i].0.object_count),
        after.subrange(
            m.offset_object_names + 64 * totals(s.take(i)).4,
            m.offset_object_names + 64 * totals(s.take(i)).4 + 64 * s[i].0.object_count,
        ) == s[i].1.subrange(s[i].0.offset_object_names as int, s[i].0.offset_object_names + 64 * s[i].0.object_count),
        after.subrange(
            m.offset_embeddings + 1024 * totals(s.take(i)).4,
            m.offset_embeddings + 1024 * totals(s.take(i)).4 + 1024 * s[i].0.object_count,
        ) == s[i].1.subrange(s[i].0.offset_embeddings as int, s[i].0.offset_embeddings + 1024 * s[i].0.object_count),
{
    lemma_all_within(s, before.len());
    assert(sections_within(s[i].0, s[i].1));
    lemma_totals_step(s, i);
    lemma_totals_prefix(s, i);
    lemma_totals_prefix(s, i + 1);
    lemma_regions_fit(s, m, total, before.len());
    lemma_meta_image_len(m);
    lemma_fill_len(
        splice(before, 0, asset_meta_image(m)),
        region_starts(m),
        merged_regions(s),
        total as int,
    );
    lemma_merge_read_back(s, before, after, m, total, 0);
    assert(closing(s, 0) =~= Seq::<u8>::empty());
    assert(once(s, 0) =~= Seq::<u8>::empty());
    lemma_merged_section_part(s, after, m, i, 0);
    lemma_merge_read_back(s, before, after, m, total, 1);
    assert(closing(s, 1) =~= Seq::<u8>::empty());
    assert(once(s, 1) =~= Seq::<u8>::empty());
    lemma_merged_section_part(s, after, m, i, 1);
    lemma_merge_read_back(s, before, after, m, total, 2);
    assert(closing(s, 2) =~= Seq::<u8>::empty());
    assert(once(s, 2) =~= Seq::<u8>::empty());
    lemma_merged_section_part(s, after, m, i, 2);
    lemma_merge_read_back(s, before, after, m, total, 4);
    assert(closing(s, 4) =~= Seq::<u8>::empty());
    assert(once(s, 4) =~= Seq::<u8>::empty());
    lemma_merged_section_part(s, after, m, i, 4);
    lemma_merge_read_back(s, before, after, m, total, 6);
    assert(closing(s, 6) =~= Seq::<u8>::empty());
    assert(once(s, 6) =~= Seq::<u8>::empty());
    lemma_merged_section_part(s, after, m, i, 6);
    lemma_merge_read_back(s, before, after, m, total, 9);
    assert(closing(s, 9) =~= Seq::<u8>::empty());
    assert(once(s, 9) =~= Seq::<u8>::empty());
    lemma_merged_section_part(s, after, m, i, 9);
    lemma_merge_read_back(s, before, after, m, total, 11);
    assert(closing(s, 11) =~= Seq::<u8>::empty());
    assert(once(s, 11) =~= Seq::<u8>::empty());
    lemma_merged_section_part(s, after, m, i, 11);
}

/// The group name of a merged asset lies at its header's group-name
/// offset, and the canonical transform and asset embedding of the first
/// source at its header's offsets for them.
pub proof fn lemma_merged_once(
    s: Seq<(AssetMeta, Seq<u8>)>,
    before: Seq<u8>,
    after: Seq<u8>,
    m: AssetMeta,
    total: usize,
)
    requires
        merge_fits(s, before.len()),
        merged(s, before, after, m, total),
    ensures
        after.subrange(
            m.offset_group_name as int,
            m.offset_group_name + encode_utf8(merged_name(s)).len(),
        ) == encode_utf8(merged_name(s)),
        s.len() > 0 ==> after.subrange(
            m.offset_canonical_transform as int,
            m.offset_canonical_transform + 64,
        ) == s[0].1.subrange(
            s[0].0.offset_canonical_transform as int,
            s[0].0.offset_canonical_transform + 64,
        ),
        s.len() > 0 ==> after.subrange(
            m.offset_asset_embedding as int,
            m.offset_asset_embedding + 1024,
        ) == s[0].1.subrange(
            s[0].0.offset_asset_embedding as int,
            s[0].0.offset_asset_embedding + 1024,
        ),
{
    lemma_all_within(s, before.len());
    lemma_merge_read_back(s, before, after, m, total, 10);
    lemma_merge_read_back(s, before, after, m, total, 12);
    lemma_merge_read_back(s, before, after, m, total, 13);
    lemma_gathered_len(s, 10);
    lemma_gathered_len(s, 12);
    lemma_gathered_len(s, 13);
    assert(merged_regions(s)[10] =~= encode_utf8(merged_name(s)));
    if s.len() > 0 {
        assert(sections_within(s[0].0, s[0].1));
        assert(merged_regions(s)[12] =~= once(s, 12));
        assert(merged_regions(s)[13] =~= once(s, 13));
    }
}

/// Where table `k` of a header starts: loop bases, object loop counts,
/// vertex bases or edge bases.
pub open spec fn table_start(m: AssetMeta, k: int) -> int {
    if k == 3 {
        m.offset_loop_bases as int
    } else if k == 5 {
        m.offset_object_loop_counts as int
    } else if k == 7 {
        m.offset_vert_bases as int
    } else {
        m.offset_edge_bases as int
    }
}

/// How many entries table `k` has before its closing one: loops for the
/// loop bases, objects for the others.
pub open spec fn table_count(c: (int, int, int, int, int), k: int) -> int {
    if k == 3 {
        c.2
    } else {
        c.4
    }
}

/// What the entries of table `k` count, which sources after them are moved
/// past: loop lengths for the loop bases, loops for the object loop
/// counts, vertices and edges for the vertex and edge bases.
pub open spec fn table_shift(c: (int, int, int, int, int), k: int) -> int {
    if k == 3 {
        c.3
    } else if k == 5 {
        c.2
    } else if k == 7 {
        c.0
    } else {
        c.1
    }
}

/// Whether `k` is one of the four tables.
pub open spec fn is_table(k: int) -> bool {
    k == 3 || k == 5 || k == 7 || k == 8
}

/// Word `x` of shifted words is the word moved.
proof fn lemma_word_shifted(b: Seq<u8>, n: nat, add: u32, x: int)
    requires
        0 <= x < n,
    ensures
        word_at(shifted_words(b, n, add), x) == (word_at(b, x) + add) as u32,
    decreases n,
{
    let a = shifted_words(b, (n - 1) as nat, add);
    let v = (word_at(b, n - 1) + add) as u32;
    lemma_shifted_len(b, (n - 1) as nat, add);
    lemma_u32_le_roundtrip(v);
    if x < n - 1 {
        lemma_word_shifted(b, (n - 1) as nat, add, x);
        assert((a + u32_le(v)).subrange(4 * x, 4 * x + 4) =~= a.subrange(4 * x, 4 * x + 4));
    } else {
        assert((a + u32_le(v)).subrange(4 * x, 4 * x + 4) =~= u32_le(v));
    }
}

/// A word of a concatenation is a word of the part that holds it, when
/// the first part holds `q` whole words.
proof fn lemma_word_concat(a: Seq<u8>, b: Seq<u8>, q: int, x: int)
    requires
        0 <= x,
        0 <= q,
        a.len() == 4 * q,
        4 * x + 4 <= a.len() + b.len(),
    ensures
        x < q ==> word_at(a + b, x) == word_at(a, x),
        x >= q ==> word_at(a + b, x) == word_at(b, x - q),
{
    if x < q {
        assert((a + b).subrange(4 * x, 4 * x + 4) =~= a.subrange(4 * x, 4 * x + 4));
    } else {
        let y = x - q;
        assert((a + b).subrange(4 * x, 4 * x + 4) =~= b.subrange(4 * y, 4 * y + 4));
    }
}

/// Entry `x` of table `k` of source `i` lands in the gathered table after
/// the entries of the sources before it, moved past them.
proof fn lemma_gathered_table(s: Seq<(AssetMeta, Seq<u8>)>, k: int, i: int, x: int)
    requires
        is_table(k),
        0 <= i < s.len(),
        0 <= x < table_count(counts_of(s[i].0), k),
        totals_fit(s),
        forall|j: int| 0 <= j < s.len() ==> #[trigger] sections_within(s[j].0, s[j].1),
    ensures
        word_at(gathered(s, k), table_count(totals(s.take(i)), k) + x) == (word_at(
            section(s[i].1, table_start(s[i].0, k), 4 * table_count(counts_of(s[i].0), k)),
            x,
        ) + table_shift(totals(s.take(i)), k)) as u32,
    decreases s.len(),
{
    let p = s.drop_last();
    let n = s.len() - 1;
    assert forall|j: int| 0 <= j < p.len() implies #[trigger] sections_within(p[j].0, p[j].1) by {
        assert(sections_within(s[j].0, s[j].1));
    }
    lemma_gathered_len(p, k);
    assert(sections_within(s[n].0, s[n].1));
    lemma_contribution_len(totals(p), s[n].0, s[n].1);
    let c = contribution(totals(p), s.last().0, s.last().1, k);
    let idx = table_count(totals(s.take(i)), k) + x;
    let q = table_count(totals(p), k);
    lemma_totals_prefix(s, n);
    assert(s.take(n) =~= p);
    lemma_totals_prefix(s, i);
    if i < n {
        assert(p.take(i) =~= s.take(i));
        assert(p.take(i + 1) =~= s.take(i + 1));
        assert(p[i] == s[i]);
        lemma_gathered_table(p, k, i, x);
        lemma_totals_prefix(p, i + 1);
        lemma_totals_step(p, i);
        lemma_word_concat(gathered(p, k), c, q, idx);
    } else {
        assert(s.take(i) =~= p);
        lemma_word_concat(gathered(p, k), c, q, idx);
        lemma_word_shifted(
            section(s[i].1, table_start(s[i].0, k), 4 * table_count(counts_of(s[i].0), k)),
            table_count(counts_of(s[i].0), k) as nat,
            table_shift(totals(p), k) as u32,
            x,
        );
    }
}

/// Each table of a merged asset: entry `x` of source `i`'s table is entry
/// (entries of the sources before it) + `x` of the merged table, increased
/// by what the sources before it count; the closing entry is the last
/// source's closing entry, increased alike.
pub proof fn lemma_merged_table(s: Seq<(AssetMeta, Seq<u8>)>, len: nat, k: int, i: int, x: int)
    requires
        merge_fits(s, len),
        is_table(k),
        0 <= i < s.len(),
        0 <= x <= table_count(counts_of(s[i].0), k),
        x == table_count(counts_of(s[i].0), k) ==> i == s.len() - 1,
    ensures
        word_at(merged_regions(s)[k], table_count(totals(s.take(i)), k) + x) == (word_at(
            section(s[i].1, table_start(s[i].0, k), 4 * table_count(counts_of(s[i].0), k) + 4),
            x,
        ) + table_shift(totals(s.take(i)), k)) as u32,
{
    lemma_all_within(s, len);
    let mr = merged_regions(s);
    let g = gathered(s, k);
    let cl = closing(s, k);
    let n = s.len() - 1;
    let cnt = table_count(counts_of(s[i].0), k);
    let b = section(s[i].1, table_start(s[i].0, k), 4 * cnt + 4);
    let idx = table_count(totals(s.take(i)), k) + x;
    lemma_gathered_len(s, k);
    assert(sections_within(s[n].0, s[n].1));
    assert(s.take(n) =~= s.drop_last());
    lemma_contribution_len(totals(s.drop_last()), s[n].0, s[n].1);
    assert(mr[k] == g + cl + once(s, k));
    assert(once(s, k) =~= Seq::<u8>::empty());
    assert(g + cl + once(s, k) =~= g + cl);
    lemma_totals_prefix(s, i);
    lemma_totals_prefix(s, i + 1);
    lemma_totals_step(s, i);
    assert(sections_within(s[i].0, s[i].1));
    let q = table_count(totals(s), k);
    lemma_totals_prefix(s, n);
    if x < cnt {
        lemma_gathered_table(s, k, i, x);
        lemma_word_concat(g, cl, q, idx);
        assert(section(s[i].1, table_start(s[i].0, k), 4 * cnt).subrange(4 * x, 4 * x + 4)
            =~= b.subrange(4 * x, 4 * x + 4));
    } else {
        assert(s.take(i) =~= s.drop_last());
        lemma_word_concat(g, cl, q, idx);
        let one = section(s[i].1, table_start(s[i].0, k) + 4 * cnt, 4);
        lemma_word_shifted(one, 1, table_shift(totals(s.take(i)), k) as u32, 0);
        assert(one.subrange(0, 4) =~= b.subrange(4 * x, 4 * x + 4));
    }
}

/// The entries of table `k` of the source with header `m` and segment `r`,
/// its closing entry included.
pub open spec fn table_of(m: AssetMeta, r: Seq<u8>, k: int) -> Seq<u8> {
    section(r, table_start(m, k), 4 * table_count(counts_of(m), k) + 4)
}

/// Whether table `k` of a source is closed the way the field docs describe:
/// it starts at 0 and its closing entry is the total it indexes (the loop
/// lengths for the loop bases, the loops for the object loop counts, the
/// vertices and edges for the vertex and edge bases).
pub open spec fn table_closed(m: AssetMeta, r: Seq<u8>, k: int) -> bool {
    &&& word_at(table_of(m, r, k), 0) == 0
    &&& word_at(table_of(m, r, k), table_count(counts_of(m), k)) == table_shift(counts_of(m), k)
}

/// With closed source tables, the merged entry where source `i`'s table
/// ends holds the total of the sources up to and including it.
proof fn lemma_table_boundary(s: Seq<(AssetMeta, Seq<u8>)>, len: nat, k: int, i: int)
    requires
        merge_fits(s, len),
        is_table(k),
        0 <= i < s.len() - 1,
        forall|j: int| 0 <= j < s.len() ==> #[trigger] table_closed(s[j].0, s[j].1, k),
    ensures
        word_at(merged_regions(s)[k], table_count(totals(s.take(i + 1)), k)) == table_shift(
            totals(s.take(i + 1)),
            k,
        ),
    decreases s.len() - i,
{
    let j = i + 1;
    assert(table_closed(s[j].0, s[j].1, k));
    lemma_totals_step(s, j);
    lemma_totals_prefix(s, j);
    lemma_totals_prefix(s, j + 1);
    if table_count(counts_of(s[j].0), k) > 0 || j == s.len() - 1 {
        lemma_merged_table(s, len, k, j, 0);
        assert(table_shift(totals(s.take(j)), k) <= u32::MAX);
    } else {
        lemma_table_boundary(s, len, k, j);
    }
}

/// With closed source tables, entry `x` of source `i`'s table, its closing
/// entry included, is entry (entries of the sources before it) + `x` of the
/// merged table, increased by the total of the sources before it; so the
/// merged table starts at 0 and closes with the total over all sources.
pub proof fn lemma_merged_table_closed(
    s: Seq<(AssetMeta, Seq<u8>)>,
    len: nat,
    k: int,
    i: int,
    x: int,
)
    requires
        merge_fits(s, len),
        is_table(k),
        forall|j: int| 0 <= j < s.len() ==> #[trigger] table_closed(s[j].0, s[j].1, k),
        0 <= i < s.len(),
        0 <= x <= table_count(counts_of(s[i].0), k),
    ensures
        word_at(merged_regions(s)[k], table_count(totals(s.take(i)), k) + x) == word_at(
            table_of(s[i].0, s[i].1, k),
            x,
        ) + table_shift(totals(s.take(i)), k),
{
    let cnt = table_count(counts_of(s[i].0), k);
    lemma_totals_step(s, i);
    lemma_totals_prefix(s, i);
    lemma_totals_prefix(s, i + 1);
    assert(table_closed(s[i].0, s[i].1, k));
    if x < cnt || i == s.len() - 1 {
        lemma_merged_table(s, len, k, i, x);
        assert(source_fits(s[i].0, s[i].1, totals(s.take(i))));
        assert(x < cnt ==> word_at(section(s[i].1, table_start(s[i].0, k), 4 * cnt), x) + table_shift(totals(s.take(i)), k) <= u32::MAX);
        if x < cnt {
            assert(section(s[i].1, table_start(s[i].0, k), 4 * cnt).subrange(4 * x, 4 * x + 4)
                =~= table_of(s[i].0, s[i].1, k).subrange(4 * x, 4 * x + 4));
        } else {
            assert(section(s[i].1, table_start(s[i].0, k) + 4 * cnt, 4).subrange(0, 4)
                =~= table_of(s[i].0, s[i].1, k).subrange(4 * x, 4 * x + 4));
        }
    } else {
        lemma_table_boundary(s, len, k, i);
    }
}

impl AssetMeta {
    /// Merges several assets into one. Each source is a header with the
    /// bytes of its segment, which starts at the header. The header laid
    /// out for the summed counts, with the group name, surface context and
    /// identifier of the last source, is written at the start of `dest`.
    /// Each section of the merged asset, at its offset in the new header,
    /// holds the sections of that kind of the sources one after the other:
    /// identifiers, vertices, edges, loops, transforms, object names and
    /// embeddings as they are; loop bases moved past the loop lengths of the
    /// sources before, object loop counts past their loops, vertex and edge
    /// bases past their vertices and edges, each table closed by the last
    /// entry of the last source's. The group name is written at its
    /// offset, and the canonical transform and asset embedding are those of
    /// the first source. `dest` must hold the whole merged asset. Returns
    /// the new header and the total size of its layout.
    #[verifier::rlimit(40)]
    pub fn merge_assets(dest: &mut [u8], sources: &[(&AssetMeta, &[u8])]) -> (r: Result<
        (AssetMeta, usize),
        String,
    >)
        requires
            merge_fits(sources_view(sources@), old(dest)@.len()),
        ensures
            match r {
                Ok((m, total)) => merged(sources_view(sources@), old(dest)@, final(dest)@, m, total),
                Err(_) => false,
            },
    {
        let ghost s = sources_view(sources@);
        let ghost d0 = dest@;
        let (m, total, name) = match merged_header(sources) {
            Ok(v) => v,
            Err(e) => return Err(e),
        };
        let ghost st = region_starts(m);
        let ghost full = merged_regions(s);
        proof {
            lemma_regions_fit(s, m, total, d0.len());
            let t = totals(s);
            let sz = layout_sizes(t.0 as u32, t.1 as u32, t.2 as u32, t.3 as u32, t.4 as u32,
                encode_utf8(merged_name(s)).len());
            lemma_layout_sizes(t.0 as u32, t.1 as u32, t.2 as u32, t.3 as u32, t.4 as u32,
                encode_utf8(merged_name(s)).len());
            lemma_layout_monotone(sz, 0, 14);
        }
        put_asset_meta(dest, &m);
        let ghost d1 = dest@;
        let cum = gather_sources(dest, &m, sources, total, Ghost(d1), Ghost(d0.len()));
        finish_regions(dest, &m, sources, cum, &name, total, Ghost(d1), Ghost(d0.len()));
        Ok((m, total))
    }
}

} // verus!
