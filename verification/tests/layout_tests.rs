use pivot_com_types::allocation::{align_to_32, AllocRequestMeta, AllocResponseMeta};
use pivot_com_types::asset_meta::AssetMeta;
use pivot_com_types::asset_names::GroupNames;
use pivot_com_types::asset_surface::GroupSurface;
use pivot_com_types::com_types;
use pivot_com_types::buffer::BufferError;
use pivot_com_types::command::{
    EngineCommand, EngineResponse, MeshPublish, OP_DROP_ALL_GROUPS, OP_EXPORT_ASSET_TBO,
    OP_EXTRACT_GEOMETRIC_FEATURES, OP_GROUP_ALL_OBJECTS,
};
use pivot_com_types::fields::Uuid;

fn make_uuid(id: u8) -> Uuid {
    let mut bytes = [0u8; Uuid::SIZE];
    bytes[0] = id;
    Uuid { bytes }
}

fn le32(b: &[u8], at: usize) -> u32 {
    u32::from_le_bytes([b[at], b[at + 1], b[at + 2], b[at + 3]])
}

fn le64(b: &[u8], at: usize) -> u64 {
    let mut w = [0u8; 8];
    w.copy_from_slice(&b[at..at + 8]);
    u64::from_le_bytes(w)
}

#[test]
fn test_align_to_32_values() {
    assert_eq!(align_to_32(0), 0);
    assert_eq!(align_to_32(1), 32);
    assert_eq!(align_to_32(32), 32);
    assert_eq!(align_to_32(33), 64);
    assert_eq!(align_to_32(88), 96);
}

#[test]
fn test_alloc_meta_offsets() {
    let req = AllocRequestMeta::new(2);
    assert_eq!(req.num_assets, 2);
    assert_eq!(req.offset_uuids, 24);
    assert_eq!(req.offset_sizes, 96);
    let resp = AllocResponseMeta::new(0);
    assert_eq!(resp.offset_uuids, 24);
    assert_eq!(resp.offset_packed_ptrs, 32);
}

#[test]
fn test_alloc_request_payload_layout() {
    let uuids = [make_uuid(1), make_uuid(2)];
    let cmd = EngineCommand::alloc_request(&uuids, &[1024, 2048]);
    let data = cmd.inline_data.as_ref();
    assert_eq!(le64(data, 0), 2);
    assert_eq!(le64(data, 8), 24);
    assert_eq!(le64(data, 16), 96);
    assert_eq!(data[24], 1);
    assert_eq!(data[56], 2);
    assert_eq!(le64(data, 96), 1024);
    assert_eq!(le64(data, 104), 2048);
}

#[test]
fn test_read_alloc_request_corrupted() {
    let mut cmd = EngineCommand::stop_engine();
    // A header announcing more identifiers than the payload can hold.
    cmd.inline_data.as_mut()[0..8].copy_from_slice(&5000u64.to_le_bytes());
    cmd.inline_data.as_mut()[8..16].copy_from_slice(&24u64.to_le_bytes());
    cmd.inline_data.as_mut()[16..24].copy_from_slice(&96u64.to_le_bytes());
    assert_eq!(cmd.read_alloc_request().unwrap_err(), BufferError::Corrupted);
}

#[test]
fn test_group_names_truncation() {
    let gn = GroupNames::new("abc");
    assert_eq!(&gn.group_name[0..4], b"abc\0");
    assert!(gn.group_name[3..].iter().all(|&b| b == 0));
    let long = "x".repeat(100);
    let gn = GroupNames::new(&long);
    assert!(gn.group_name[..63].iter().all(|&b| b == b'x'));
    assert_eq!(gn.group_name[63], 0);
}

#[test]
fn test_asset_meta_new_layout() {
    let (m, total) = AssetMeta::new(2, 1, 1, 3, 1, 7, "grp", make_uuid(4)).unwrap();
    assert_eq!(m.offset_uuids, 192);
    assert_eq!(m.offset_verts, 224);
    assert_eq!(m.offset_edges, 256);
    assert_eq!(m.offset_loop_bases, 288);
    assert_eq!(m.offset_loops, 320);
    assert_eq!(m.offset_object_loop_counts, 352);
    assert_eq!(m.offset_transforms, 384);
    assert_eq!(m.offset_vert_bases, 448);
    assert_eq!(m.offset_edge_bases, 480);
    assert_eq!(m.offset_object_names, 512);
    assert_eq!(m.offset_group_name, 576);
    assert_eq!(m.offset_embeddings, 608);
    assert_eq!(m.offset_canonical_transform, 1632);
    assert_eq!(m.offset_asset_embedding, 1696);
    assert_eq!(total, 2720);
    assert_eq!(m.vert_count, 2);
    assert_eq!(m.edge_count, 1);
    assert_eq!(m.loop_count, 1);
    assert_eq!(m.total_loop_lengths, 3);
    assert_eq!(m.object_count, 1);
    assert_eq!(m.group_name_length, 3);
    assert_eq!(m.surface_context, 7);
    assert_eq!(m.uuid, make_uuid(4));
    assert_eq!(m.bounds.max_x, 0);
}

#[test]
fn test_asset_meta_empty_layout() {
    let (m, total) = AssetMeta::new(0, 0, 0, 0, 0, 0, "", make_uuid(0)).unwrap();
    assert_eq!(m.offset_uuids, 192);
    assert_eq!(m.offset_verts, 192);
    assert_eq!(m.offset_loop_bases, 192);
    assert_eq!(m.offset_loops, 224);
    assert_eq!(m.offset_object_loop_counts, 224);
    assert_eq!(m.offset_transforms, 256);
    assert_eq!(m.offset_asset_embedding, 384);
    assert_eq!(total, 1408);
}

#[test]
fn test_byte_sizes_and_slices() {
    let (m, _) = AssetMeta::new(2, 1, 1, 3, 1, 7, "grp", make_uuid(4)).unwrap();
    assert_eq!(m.verts_byte_size(), 24);
    assert_eq!(m.edges_byte_size(), 8);
    assert_eq!(m.transforms_byte_size(), 64);
    assert_eq!(m.vert_counts_byte_size(), 8);
    assert_eq!(m.edge_counts_byte_size(), 8);
    assert_eq!(m.object_names_byte_size(), 64);
    assert_eq!(m.uuids_byte_size(), 32);
    let s = m.get_slices();
    assert_eq!((s.0.start, s.0.len), (192, 32));
    assert_eq!((s.1.start, s.1.len), (224, 24));
    assert_eq!((s.3.start, s.3.len), (320, 12));
    assert_eq!((s.4.start, s.4.len), (288, 8));
    assert_eq!((s.10.start, s.10.len), (608, 1024));
    assert_eq!((s.11.start, s.11.len), (1632, 64));
    assert_eq!((s.12.start, s.12.len), (1696, 1024));
}

#[test]
fn test_group_name_write_and_read() {
    let (m, total) = AssetMeta::new(0, 0, 0, 0, 0, 0, "grp\0\0", make_uuid(1)).unwrap();
    let mut seg = vec![0xEEu8; total];
    m.write_group_name(&mut seg, "grp\0\0");
    assert_eq!(&seg[m.offset_group_name..m.offset_group_name + 5], b"grp\0\0");
    assert_eq!(m.get_group_name(&seg), "grp");
    seg[m.offset_group_name] = 0xFF;
    assert_eq!(m.get_group_name(&seg), "");
}

fn put_words(seg: &mut [u8], at: usize, words: &[u32]) {
    for (k, v) in words.iter().enumerate() {
        seg[at + 4 * k..at + 4 * k + 4].copy_from_slice(&v.to_le_bytes());
    }
}

fn source(verts: u32, edges: u32, loops: u32, lengths: u32, name: &str, id: u8, lb: &[u32], olc: &[u32])
    -> (AssetMeta, Vec<u8>) {
    let (m, total) = AssetMeta::new(verts, edges, loops, lengths, 1, id as u16, name, make_uuid(id))
        .unwrap();
    let mut seg = vec![0u8; total];
    m.write_group_name(&mut seg, name);
    for b in &mut seg[m.offset_uuids..m.offset_uuids + 32] {
        *b = id;
    }
    put_words(&mut seg, m.offset_loop_bases, lb);
    put_words(&mut seg, m.offset_object_loop_counts, olc);
    put_words(&mut seg, m.offset_vert_bases, &[0, verts]);
    put_words(&mut seg, m.offset_edge_bases, &[0, edges]);
    for b in &mut seg[m.offset_canonical_transform..m.offset_canonical_transform + 64] {
        *b = 0xC0 + id;
    }
    for b in &mut seg[m.offset_asset_embedding..m.offset_asset_embedding + 1024] {
        *b = 0xD0 + id;
    }
    (m, seg)
}

fn words(b: &[u8], at: usize, n: usize) -> Vec<u32> {
    (0..n).map(|k| le32(b, at + 4 * k)).collect()
}

#[test]
fn test_merge_assets_counts_and_data() {
    let (ma, sa) = source(1, 0, 1, 3, "a", 1, &[0, 3], &[0, 1]);
    let (mb, sb) = source(2, 1, 2, 4, "bb", 2, &[0, 3, 4], &[0, 2]);
    let (expected, expected_total) = AssetMeta::new(3, 1, 3, 7, 2, 2, "bb", make_uuid(2)).unwrap();
    let mut dest = vec![0u8; expected_total];
    let (m, total) = AssetMeta::merge_assets(&mut dest, &[(&ma, sa.as_slice()), (&mb, sb.as_slice())])
        .unwrap();
    assert_eq!(m.vert_count, 3);
    assert_eq!(m.edge_count, 1);
    assert_eq!(m.loop_count, 3);
    assert_eq!(m.total_loop_lengths, 7);
    assert_eq!(m.object_count, 2);
    assert_eq!(m.group_name_length, 2);
    assert_eq!(m.surface_context, 2);
    assert_eq!(m.uuid, make_uuid(2));
    assert_eq!(total, expected_total);
    assert_eq!(m.offset_asset_embedding, expected.offset_asset_embedding);
    // The header record comes first.
    assert_eq!(le64(&dest, 0), m.offset_uuids as u64);
    // The identifiers of the sources, one after the other.
    assert!(dest[m.offset_uuids..m.offset_uuids + 32].iter().all(|&b| b == 1));
    assert!(dest[m.offset_uuids + 32..m.offset_uuids + 64].iter().all(|&b| b == 2));
    // Loop bases moved past the loop lengths before, closed by the total.
    assert_eq!(words(&dest, m.offset_loop_bases, 4), vec![0, 3, 6, 7]);
    // Object loop counts moved past the loops before.
    assert_eq!(words(&dest, m.offset_object_loop_counts, 3), vec![0, 1, 3]);
    // Vertex and edge bases moved past the vertices and edges before.
    assert_eq!(words(&dest, m.offset_vert_bases, 3), vec![0, 1, 3]);
    assert_eq!(words(&dest, m.offset_edge_bases, 3), vec![0, 0, 1]);
    // The canonical transform and asset embedding of the first source.
    let c = m.offset_canonical_transform;
    assert!(dest[c..c + 64].iter().all(|&b| b == 0xC1));
    let e = m.offset_asset_embedding;
    assert!(dest[e..e + 1024].iter().all(|&b| b == 0xD1));
    // The merged asset reads back its group name.
    assert_eq!(m.get_group_name(&dest), "bb");
}

#[test]
fn test_merge_single_source_header() {
    let (ma, sa) = source(1, 0, 1, 3, "a", 1, &[0, 3], &[0, 1]);
    let mut dest = vec![0u8; sa.len()];
    let (m, total) = AssetMeta::merge_assets(&mut dest, &[(&ma, sa.as_slice())]).unwrap();
    assert_eq!(m.offset_verts, ma.offset_verts);
    assert_eq!(m.offset_asset_embedding, ma.offset_asset_embedding);
    assert_eq!(total, sa.len());
    // Every section of the single source is copied to the same place.
    assert_eq!(&dest[192..], &sa[192..]);
}

#[test]
fn test_merge_no_sources() {
    let mut dest = vec![0xFFu8; 1408];
    let (m, total) = AssetMeta::merge_assets(&mut dest, &[]).unwrap();
    assert_eq!(m.vert_count, 0);
    assert_eq!(m.object_count, 0);
    assert_eq!(m.group_name_length, 0);
    assert_eq!(m.uuid, make_uuid(0));
    assert_eq!(total, 1408);
    // Only the header record is written.
    assert_eq!(le64(&dest, 0), 192);
    assert_eq!(le64(&dest, 8 * 13), m.offset_asset_embedding as u64);
    assert!(dest[192..].iter().all(|&b| b == 0xFF));
}

#[test]
fn test_extra_commands() {
    let uuids = [make_uuid(3)];
    let cmd = EngineCommand::extract_geometric_features(&uuids, 1);
    assert_eq!(cmd.op_id, OP_EXTRACT_GEOMETRIC_FEATURES);
    assert_eq!(cmd.read_extract_geometric_features().unwrap(), &uuids);
    let cmd = EngineCommand::drop_all_groups();
    assert_eq!(cmd.op_id, OP_DROP_ALL_GROUPS);
    cmd.read_drop_all_groups();
    let cmd = EngineCommand::group_all_objects();
    assert_eq!(cmd.op_id, OP_GROUP_ALL_OBJECTS);
    cmd.read_group_all_objects();
    assert_eq!(EngineResponse::extract_geometric_features().read_extract_geometric_features(), 0);
    assert_eq!(MeshPublish::extract_geometric_features().read_extract_geometric_features(), 0);
}

#[test]
fn test_tbo_export_roundtrip() {
    let names = [[1u8; 64], [2u8; 64], [3u8; 64], [4u8; 64], [5u8; 64]];
    let cmd = EngineCommand::tbo_export(
        &names[0], &names[1], &names[2], &names[3], &names[4], 1, 2, 3, 4, 5, 6, 7, 8, 9, 10, 11,
        12, 13, 14, 15, true, false, true, false, true, false, true, false, true, false, 777,
    );
    assert_eq!(cmd.op_id, OP_EXPORT_ASSET_TBO);
    let f = cmd.read_tbo_export().unwrap();
    assert_eq!(f.0, names[0]);
    assert_eq!(f.4, names[4]);
    assert_eq!((f.5, f.12, f.19), (1, 8, 15));
    assert_eq!((f.20, f.21, f.28, f.29), (true, false, true, false));
    assert_eq!(f.30, 777);
}

#[test]
fn test_copy_payload_into_inline() {
    let mut cmd = com_types::EngineCommand {
        should_cache: 1,
        op_id: com_types::OP_DROP_GROUPS,
        num_groups: 2,
        inline_data: [0u8; com_types::MAX_INLINE_DATA],
    };
    cmd.copy_payload_into_inline(&[0x0102u32, 0x0304]);
    assert_eq!(&cmd.inline_data[0..8], &[2, 1, 0, 0, 4, 3, 0, 0]);
    assert_eq!((cmd.should_cache, cmd.op_id, cmd.num_groups), (1, 4, 2));
    // Only the first 64 KiB of a larger payload are kept.
    let big = vec![0xAAAA_AAAA_AAAA_AAAAu64; 9000];
    cmd.copy_payload_into_inline(&big);
    assert!(cmd.inline_data.iter().all(|&b| b == 0xAA));
    // A payload whose size is not a multiple of the item size is cut inside
    // an item.
    let surfaces = vec![GroupSurface::new(make_uuid(7), 0x0102_0304_0506_0708); 1639];
    cmd.copy_payload_into_inline(&surfaces);
    assert_eq!(cmd.inline_data[65520], 7);
    assert_eq!(cmd.inline_data[65535], 0);
    assert_eq!(cmd.inline_data[65519], 1);
}

#[test]
fn test_compact_asset_meta_layout() {
    let (total, m) = com_types::AssetMeta::new(2, 1, 1, 7, "grp");
    assert_eq!(m.offset_uuids, 80);
    assert_eq!(m.offset_verts, 96);
    assert_eq!(m.offset_edges, 120);
    assert_eq!(m.offset_transforms, 128);
    assert_eq!(m.offset_vert_bases, 192);
    assert_eq!(m.offset_edge_bases, 200);
    assert_eq!(m.offset_object_names, 208);
    assert_eq!(m.offset_object_name_lengths, 272);
    assert_eq!(m.offset_group_name, 280);
    assert_eq!(total, 288);
    assert_eq!((m.object_count, m.group_name_length, m.surface_context), (1, 3, 7));
    let resp = com_types::EngineResponse { status: 0 };
    assert_eq!(resp.status, 0);
}

#[test]
fn test_named_group_surface() {
    let s = com_types::GroupSurface::new("wood", 3);
    assert_eq!(&s.group_name[0..5], b"wood\0");
    assert_eq!(s.surface_type, 3);
    let long = "y".repeat(70);
    let s = com_types::GroupSurface::new(&long, 1);
    assert!(s.group_name[..63].iter().all(|&b| b == b'y'));
    assert_eq!(s.group_name[63], 0);
}

#[test]
fn test_read_export_assets_errors() {
    let mut cmd = EngineCommand::stop_engine();
    for b in cmd.inline_data.as_mut().iter_mut() {
        *b = 0xFF;
    }
    assert_eq!(cmd.read_export_assets().unwrap_err(), BufferError::Corrupted);
    assert_eq!(cmd.read_export_all().unwrap_err(), BufferError::Corrupted);
    cmd.inline_data.as_mut()[1] = 0;
    assert_eq!(cmd.read_export_assets().unwrap_err(), BufferError::InvalidUtf8);
    assert_eq!(cmd.read_export_all().unwrap_err(), BufferError::InvalidUtf8);
    assert_eq!(cmd.read_import_assets().unwrap(), Vec::<&str>::new());
    cmd.num_headers = 1;
    assert_eq!(cmd.read_import_assets().unwrap_err(), BufferError::InvalidUtf8);
}

#[test]
fn test_import_assets_stops_at_empty_path() {
    let cmd = EngineCommand::import_assets(&["a", "", "b"]);
    assert_eq!(cmd.num_headers, 3);
    assert_eq!(cmd.read_import_assets().unwrap(), vec!["a"]);
    let resp = EngineResponse::export_assets(&[]);
    assert!(resp.read_export_assets().unwrap().is_empty());
}

#[test]
fn test_export_payload_layout() {
    let cmd = EngineCommand::export_assets("ab", 0x0102_0304, &[make_uuid(9)]);
    let data = cmd.inline_data.as_ref();
    assert_eq!(&data[0..3], b"ab\0");
    assert_eq!(le32(data, 4), 0x0102_0304);
    assert_eq!(data[32], 9);
    assert_eq!(cmd.num_headers, 1);
}

#[test]
fn test_group_name_roundtrip() {
    let name = "héllo wörld";
    let (m, total) = AssetMeta::new(0, 0, 0, 0, 0, 0, name, make_uuid(1)).unwrap();
    let mut seg = vec![0x55u8; total];
    m.write_group_name(&mut seg, name);
    assert_eq!(m.get_group_name(&seg), name);
}

#[test]
fn test_merge_tables_across_empty_source() {
    let (ma, sa) = source(1, 0, 1, 3, "a", 1, &[0, 3], &[0, 1]);
    let (mz, sz) = source(0, 0, 0, 0, "z", 3, &[0], &[0, 0]);
    let (mb, sb) = source(2, 1, 2, 4, "bb", 2, &[0, 3, 4], &[0, 2]);
    let (_, expected_total) = AssetMeta::new(3, 1, 3, 7, 3, 2, "bb", make_uuid(2)).unwrap();
    let mut dest = vec![0u8; expected_total];
    let (m, total) = AssetMeta::merge_assets(
        &mut dest,
        &[(&ma, sa.as_slice()), (&mz, sz.as_slice()), (&mb, sb.as_slice())],
    )
    .unwrap();
    assert_eq!(total, expected_total);
    assert_eq!(words(&dest, m.offset_loop_bases, 4), vec![0, 3, 6, 7]);
    assert_eq!(words(&dest, m.offset_object_loop_counts, 4), vec![0, 1, 1, 3]);
    assert_eq!(words(&dest, m.offset_vert_bases, 4), vec![0, 1, 1, 3]);
}
